//! The user database: numeric fields as Rust parses them, the lookup of a
//! user by name or UID, the UID-to-name table, and the choice of the
//! identity a command runs under.
use vstd::prelude::*;
use std::collections::HashMap;
use crate::text::{decimal, digit_char, lines, push_str, split_chars, split_lines, split_on, to_chars, views};

verus! {

// ---------------------------------------------------------------------------
// Unsigned decimal parsing
// ---------------------------------------------------------------------------

pub open spec fn is_digit(c: char) -> bool {
    '0' <= c && c <= '9'
}

pub open spec fn digit_value(c: char) -> nat {
    ((c as int) - 48) as nat
}

/// The value of a string of decimal digits.
pub open spec fn digits_value(s: Seq<char>) -> nat
    decreases s.len(),
{
    if s.len() == 0 {
        0
    } else {
        digits_value(s.drop_last()) * 10 + digit_value(s.last())
    }
}

pub open spec fn all_digits(s: Seq<char>) -> bool {
    forall|i: int| 0 <= i < s.len() ==> is_digit(#[trigger] s[i])
}

/// `s.parse::<u32>().ok()`: an optional `+`, then at least one ASCII digit,
/// and a value that fits in 32 bits.
pub open spec fn parse_u32(s: Seq<char>) -> Option<u32> {
    let d = if s.len() > 0 && s[0] == '+' { s.drop_first() } else { s };
    if d.len() > 0 && all_digits(d) && digits_value(d) <= u32::MAX {
        Some(digits_value(d) as u32)
    } else {
        None
    }
}

proof fn lemma_digits_grow(s: Seq<char>, i: int)
    requires
        0 <= i <= s.len(),
        all_digits(s),
    ensures
        digits_value(s.take(i)) <= digits_value(s),
    decreases s.len() - i,
{
    if i < s.len() {
        lemma_digits_grow(s, i + 1);
        assert(s.take(i + 1).drop_last() =~= s.take(i));
    } else {
        assert(s.take(i) =~= s);
    }
}

/// Parses a `u32` the way `str::parse` does.
pub fn parse_u32_chars(s: &[char]) -> (r: Option<u32>)
    ensures
        r == parse_u32(s@),
{
    let start: usize = if s.len() > 0 && s[0] == '+' { 1 } else { 0 };
    let ghost d = if s@.len() > 0 && s@[0] == '+' { s@.drop_first() } else { s@ };
    assert(d =~= s@.skip(start as int));
    if start == s.len() {
        assert(d.len() == 0);
        return None;
    }
    let mut acc: u64 = 0;
    let mut i: usize = start;
    assert(d.take(0) =~= Seq::<char>::empty());
    while i < s.len()
        invariant
            start <= i <= s@.len(),
            d == s@.skip(start as int),
            d == (if s@.len() > 0 && s@[0] == '+' { s@.drop_first() } else { s@ }),
            all_digits(d.take(i - start)),
            acc == digits_value(d.take(i - start)),
            acc <= u32::MAX,
        decreases s.len() - i,
    {
        let c = s[i];
        assert(d.take(i + 1 - start).drop_last() =~= d.take(i - start));
        assert(d[i - start] == s@[i as int]);
        if !('0' <= c && c <= '9') {
            assert(!is_digit(d[i - start]));
            return None;
        }
        let v: u64 = (c as u32 - '0' as u32) as u64;
        acc = acc * 10 + v;
        if acc > u32::MAX as u64 {
            proof {
                if all_digits(d) {
                    lemma_digits_grow(d, i + 1 - start);
                }
            }
            return None;
        }
        i = i + 1;
    }
    assert(d.take(i - start) =~= d);
    Some(acc as u32)
}

/// Parses a `u32` from a string slice.
pub fn parse_u32_str(s: &str) -> (r: Option<u32>)
    ensures
        r == parse_u32(s@),
{
    let v = to_chars(s);
    parse_u32_chars(v.as_slice())
}

// ---------------------------------------------------------------------------
// Looking up a user
// ---------------------------------------------------------------------------

/// Whether a line of the user database (split at `:`) is the entry sought:
/// by UID when the name given is a number, by login name otherwise.
pub open spec fn entry_matches(fields: Seq<Seq<char>>, username: Seq<char>) -> bool {
    fields.len() >= 4 && match parse_u32(username) {
        Some(uid) => parse_u32(fields[2]) == Some(uid),
        None => fields[0] == username,
    }
}

pub open spec fn quoted_user_error(before: Seq<char>, username: Seq<char>, after: Seq<char>) -> Seq<char> {
    before + username + after
}

/// The result of looking `username` up in the given lines of the database:
/// the UID and GID of the first matching entry.
pub open spec fn find_user(ls: Seq<Seq<char>>, username: Seq<char>) -> Result<(u32, u32), Seq<char>>
    decreases ls.len(),
{
    if ls.len() == 0 {
        Err(quoted_user_error("User '"@, username, "' not found"@))
    } else {
        let f = split_on(ls[0], ':');
        if entry_matches(f, username) {
            match parse_u32(f[2]) {
                None => Err(quoted_user_error("Invalid UID for '"@, username, "'"@)),
                Some(uid) => match parse_u32(f[3]) {
                    None => Err(quoted_user_error("Invalid GID for '"@, username, "'"@)),
                    Some(gid) => Ok((uid, gid)),
                },
            }
        } else {
            find_user(ls.drop_first(), username)
        }
    }
}

proof fn lemma_digit_char_value(d: nat)
    requires
        d < 10,
    ensures
        is_digit(digit_char(d)),
        digit_value(digit_char(d)) == d,
{
}

proof fn lemma_parse_decimal(n: nat)
    ensures
        decimal(n).len() > 0,
        all_digits(decimal(n)),
        digits_value(decimal(n)) == n,
        forall|i: int| 0 <= i < decimal(n).len() ==> decimal(n)[i] != ':' && decimal(n)[i] != '\n' && decimal(n)[i] != '+',
    decreases n,
{
    if n < 10 {
        lemma_digit_char_value(n);
        assert(seq![digit_char(n)].drop_last() =~= Seq::<char>::empty());
        assert(digits_value(Seq::<char>::empty()) == 0);
        assert(digits_value(decimal(n)) == n);
    } else {
        lemma_parse_decimal(n / 10);
        lemma_digit_char_value(n % 10);
        let d = decimal(n / 10);
        let c = digit_char(n % 10);
        assert(d.push(c).drop_last() =~= d);
        assert(decimal(n) == d.push(c));
        assert(digits_value(d.push(c)) == digits_value(d) * 10 + (n % 10));
    }
}

/// The line of the database for a user: name, password placeholder, UID,
/// GID, then the other fields.
pub open spec fn passwd_line(name: Seq<char>, uid: u32, gid: u32, rest: Seq<char>) -> Seq<char> {
    name + seq![':', 'x', ':'] + decimal(uid as nat) + seq![':'] + decimal(gid as nat) + seq![':'] + rest
}

proof fn lemma_passwd_line_fields(name: Seq<char>, uid: u32, gid: u32, rest: Seq<char>)
    requires
        forall|i: int| 0 <= i < name.len() ==> name[i] != ':' && name[i] != '\n',
        forall|i: int| 0 <= i < rest.len() ==> rest[i] != '\n',
    ensures
        lines(passwd_line(name, uid, gid, rest)) == seq![passwd_line(name, uid, gid, rest)],
        split_on(passwd_line(name, uid, gid, rest), ':').len() >= 4,
        split_on(passwd_line(name, uid, gid, rest), ':')[0] == name,
        split_on(passwd_line(name, uid, gid, rest), ':')[2] == decimal(uid as nat),
        split_on(passwd_line(name, uid, gid, rest), ':')[3] == decimal(gid as nat),
        parse_u32(decimal(uid as nat)) == Some(uid),
        parse_u32(decimal(gid as nat)) == Some(gid),
{
    let du = decimal(uid as nat);
    let dg = decimal(gid as nat);
    lemma_parse_decimal(uid as nat);
    lemma_parse_decimal(gid as nat);
    let line = passwd_line(name, uid, gid, rest);
    let t4 = dg + seq![':'] + rest;
    let t3 = du + seq![':'] + t4;
    let t2 = seq!['x'] + seq![':'] + t3;
    assert(line =~= name + seq![':'] + t2);
    crate::text::lemma_split_concat(name, t2, ':');
    crate::text::lemma_split_concat(seq!['x'], t3, ':');
    crate::text::lemma_split_concat(du, t4, ':');
    crate::text::lemma_split_concat(dg, rest, ':');
    crate::text::lemma_split_whole(name, ':');
    crate::text::lemma_split_whole(seq!['x'], ':');
    crate::text::lemma_split_whole(du, ':');
    crate::text::lemma_split_whole(dg, ':');
    crate::text::lemma_split_on_nonempty(rest, ':');
    let f = split_on(line, ':');
    assert(f == seq![name] + (seq![seq!['x']] + (seq![du] + (seq![dg] + split_on(rest, ':')))));
    assert(f[0] == name && f[2] == du && f[3] == dg);
    assert forall|i: int| 0 <= i < line.len() implies line[i] != '\n' by {
        if i < name.len() {
            assert(line[i] == name[i]);
        } else if i < name.len() + 3 {
        } else if i < name.len() + 3 + du.len() {
            assert(line[i] == du[i - name.len() - 3]);
        } else if i < name.len() + 3 + du.len() + 1 {
        } else if i < name.len() + 4 + du.len() + dg.len() {
            assert(line[i] == dg[i - name.len() - 4 - du.len()]);
        } else if i < name.len() + 5 + du.len() + dg.len() {
        } else {
            assert(line[i] == rest[i - name.len() - 5 - du.len() - dg.len()]);
        }
    }
    crate::text::lemma_one_line(line);
    assert(du[0] != '+' && dg[0] != '+');
}

/// Looking a user up by name in the database line `name:x:UID:GID:...`
/// gives that UID and that GID, the UID first.
pub proof fn law_lookup_by_name(name: Seq<char>, uid: u32, gid: u32, rest: Seq<char>)
    requires
        parse_u32(name).is_none(),
        forall|i: int| 0 <= i < name.len() ==> name[i] != ':' && name[i] != '\n',
        forall|i: int| 0 <= i < rest.len() ==> rest[i] != '\n',
    ensures
        user_lookup(Ok(passwd_line(name, uid, gid, rest)), name) == Ok::<(u32, u32), Seq<char>>((uid, gid)),
{
    lemma_passwd_line_fields(name, uid, gid, rest);
    let ls = lines(passwd_line(name, uid, gid, rest));
    assert(ls[0] == passwd_line(name, uid, gid, rest));
}

/// Looking a user up by UID (a numeric name) in the database line
/// `name:x:UID:GID:...` gives that UID and that GID, the UID first.
pub proof fn law_lookup_by_uid(name: Seq<char>, uid: u32, gid: u32, rest: Seq<char>)
    requires
        forall|i: int| 0 <= i < name.len() ==> name[i] != ':' && name[i] != '\n',
        forall|i: int| 0 <= i < rest.len() ==> rest[i] != '\n',
    ensures
        user_lookup(Ok(passwd_line(name, uid, gid, rest)), decimal(uid as nat)) == Ok::<(u32, u32), Seq<char>>((uid, gid)),
{
    lemma_passwd_line_fields(name, uid, gid, rest);
    let ls = lines(passwd_line(name, uid, gid, rest));
    assert(ls[0] == passwd_line(name, uid, gid, rest));
}

/// The outcome of reading a text file: its contents or the error's text.
pub open spec fn read_view(r: Result<String, String>) -> Result<Seq<char>, Seq<char>> {
    match r {
        Ok(s) => Ok(s@),
        Err(e) => Err(e@),
    }
}

/// What looking `username` up gives, the database's contents or its read
/// error being `passwd`.
pub open spec fn user_lookup(passwd: Result<Seq<char>, Seq<char>>, username: Seq<char>) -> Result<(u32, u32), Seq<char>> {
    match passwd {
        Err(e) => Err("Cannot read /etc/passwd: "@ + e),
        Ok(content) => find_user(lines(content), username),
    }
}

pub open spec fn ids_view(r: Result<(u32, u32), String>) -> Result<(u32, u32), Seq<char>> {
    match r {
        Ok(p) => Ok(p),
        Err(e) => Err(e@),
    }
}

fn quoted_error(before: &str, username: &str, after: &str) -> (r: String)
    ensures
        r@ == quoted_user_error(before@, username@, after@),
{
    let mut m = String::new();
    push_str(&mut m, before);
    push_str(&mut m, username);
    push_str(&mut m, after);
    m
}

/// Finds a user's UID and GID in the user database, by name or by UID.
pub fn lookup_user(passwd: &Result<String, String>, username: &str) -> (r: Result<(u32, u32), String>)
    ensures
        ids_view(r) == user_lookup(read_view(*passwd), username@),
{
    let content = match passwd {
        Err(e) => {
            let mut m = String::new();
            push_str(&mut m, "Cannot read /etc/passwd: ");
            push_str(&mut m, e.as_str());
            return Err(m);
        },
        Ok(c) => c,
    };
    let chars = to_chars(content.as_str());
    let ls = split_lines(chars.as_slice());
    let numeric = parse_u32_str(username);
    let ghost all = lines(content@);
    let mut i: usize = 0;
    assert(views(ls@).skip(0) =~= views(ls@));
    while i < ls.len()
        invariant
            i <= ls@.len(),
            views(ls@) == all,
            all == lines(content@),
            read_view(*passwd) == Ok::<Seq<char>, Seq<char>>(content@),
            numeric == parse_u32(username@),
            find_user(all, username@) == find_user(all.skip(i as int), username@),
        decreases ls@.len() - i,
    {
        assert(all.skip(i as int).drop_first() =~= all.skip(i + 1));
        assert(all.skip(i as int)[0] == ls@[i as int]@);
        let p = split_chars(ls[i].as_slice(), ':');
        assert(split_on(all.skip(i as int)[0], ':') == views(p@));
        if p.len() >= 4 {
            assert(views(p@)[2] == p@[2]@);
            assert(views(p@)[0] == p@[0]@);
            assert(views(p@)[3] == p@[3]@);
            let matched = match numeric {
                Some(uid) => match parse_u32_chars(p[2].as_slice()) {
                    Some(v) => v == uid,
                    None => false,
                },
                None => {
                    let u = to_chars(username);
                    crate::text::chars_eq(p[0].as_slice(), u.as_slice())
                },
            };
            assert(matched == entry_matches(views(p@), username@));
            if matched {
                let ghost f = split_on(all.skip(i as int)[0], ':');
                assert(f == views(p@));
                assert(find_user(all.skip(i as int), username@) == (match parse_u32(f[2]) {
                    None => Err(quoted_user_error("Invalid UID for '"@, username@, "'"@)),
                    Some(uid) => match parse_u32(f[3]) {
                        None => Err(quoted_user_error("Invalid GID for '"@, username@, "'"@)),
                        Some(gid) => Ok((uid, gid)),
                    },
                }));
                let uid = match parse_u32_chars(p[2].as_slice()) {
                    Some(v) => v,
                    None => { return Err(quoted_error("Invalid UID for '", username, "'")); },
                };
                let gid = match parse_u32_chars(p[3].as_slice()) {
                    Some(v) => v,
                    None => { return Err(quoted_error("Invalid GID for '", username, "'")); },
                };
                return Ok((uid, gid));
            }
        }
        i = i + 1;
    }
    Err(quoted_error("User '", username, "' not found"))
}

// ---------------------------------------------------------------------------
// UID to name
// ---------------------------------------------------------------------------

/// The (UID, login name) pairs of the database lines that have at least
/// three fields and a numeric UID, in order.
pub open spec fn uid_entries(ls: Seq<Seq<char>>) -> Seq<(u32, Seq<char>)>
    decreases ls.len(),
{
    if ls.len() == 0 {
        Seq::empty()
    } else {
        let prev = uid_entries(ls.drop_last());
        let f = split_on(ls.last(), ':');
        if f.len() >= 3 && parse_u32(f[2]).is_some() {
            prev.push((parse_u32(f[2]).unwrap(), f[0]))
        } else {
            prev
        }
    }
}

/// The name recorded last for `uid` (a later line replaces an earlier one).
pub open spec fn name_in(entries: Seq<(u32, Seq<char>)>, uid: u32) -> Option<Seq<char>>
    decreases entries.len(),
{
    if entries.len() == 0 {
        None
    } else if entries.last().0 == uid {
        Some(entries.last().1)
    } else {
        name_in(entries.drop_last(), uid)
    }
}

/// The UID-to-name table read from the user database.
pub open spec fn uid_table(passwd: Result<Seq<char>, Seq<char>>) -> Seq<(u32, Seq<char>)> {
    match passwd {
        Ok(c) => uid_entries(lines(c)),
        Err(_) => Seq::empty(),
    }
}

/// Whether `names` gives, for each UID, the name the table records last for
/// it, and nothing for a UID the table does not name.
pub open spec fn names_agree(names: Map<u32, String>, table: Seq<(u32, Seq<char>)>) -> bool {
    forall|u: u32|
        #![trigger names.contains_key(u)]
        #![trigger name_in(table, u)]
        match name_in(table, u) {
            Some(n) => names.contains_key(u) && names[u]@ == n,
            None => !names.contains_key(u),
        }
}

/// Login names by UID: the table read from the user database, and the hash
/// map that looks names up in it.
pub struct UidMap {
    names: HashMap<u32, String>,
    table: Ghost<Seq<(u32, Seq<char>)>>,
}

impl View for UidMap {
    type V = Seq<(u32, Seq<char>)>;

    closed spec fn view(&self) -> Seq<(u32, Seq<char>)> {
        self.table@
    }
}

impl UidMap {
    #[verifier::type_invariant]
    spec fn names_match(self) -> bool {
        names_agree(self.names@, self.table@)
    }

    /// The login name of `uid`, if the database names it.
    pub fn name_of(&self, uid: u32) -> (r: Option<String>)
        ensures
            match r {
                Some(n) => name_in(self@, uid) == Some(n@),
                None => name_in(self@, uid).is_none(),
            },
    {
        broadcast use vstd::std_specs::hash::group_hash_axioms;
        proof {
            use_type_invariant(self);
        }
        match self.names.get(&uid) {
            Some(n) => Some(n.clone()),
            None => None,
        }
    }
}

/// Reads the UID-to-name table from the user database; an unreadable
/// database gives an empty table.
pub fn build_uid_map(passwd: &Result<String, String>) -> (m: UidMap)
    ensures
        m@ == uid_table(read_view(*passwd)),
{
    broadcast use vstd::std_specs::hash::group_hash_axioms;
    let mut names: HashMap<u32, String> = HashMap::new();
    let content = match passwd {
        Err(_) => {
            assert(names_agree(names@, Seq::empty()));
            return UidMap { names, table: Ghost(Seq::empty()) };
        },
        Ok(c) => c,
    };
    let chars = to_chars(content.as_str());
    let ls = split_lines(chars.as_slice());
    let ghost all = lines(content@);
    let ghost mut table: Seq<(u32, Seq<char>)> = Seq::empty();
    assert(all.take(0) =~= Seq::<Seq<char>>::empty());
    for i in 0..ls.len()
        invariant
            views(ls@) == all,
            table == uid_entries(all.take(i as int)),
            names_agree(names@, table),
    {
        assert(all.take(i + 1).drop_last() =~= all.take(i as int));
        assert(all.take(i + 1).last() == ls@[i as int]@);
        let p = split_chars(ls[i].as_slice(), ':');
        if p.len() >= 3 {
            assert(views(p@)[2] == p@[2]@);
            assert(views(p@)[0] == p@[0]@);
            match parse_u32_chars(p[2].as_slice()) {
                Some(uid) => {
                    let name = crate::text::from_chars(p[0].as_slice());
                    let ghost before = table;
                    proof {
                        table = table.push((uid, name@));
                        assert(table.drop_last() =~= before);
                    }
                    names.insert(uid, name);
                    assert(names_agree(names@, table)) by {
                        assert forall|u: u32| #[trigger] name_in(table, u) == (if u == uid { Some(p@[0]@) } else { name_in(before, u) }) by {}
                    }
                },
                None => {},
            }
        }
    }
    assert(all.take(ls@.len() as int) =~= all);
    UidMap { names, table: Ghost(table) }
}

// ---------------------------------------------------------------------------
// The identity a command runs under
// ---------------------------------------------------------------------------

/// The identity of the running process.
pub struct ProcessIds {
    /// Real user ID.
    pub uid: u32,
    /// Real group ID.
    pub gid: u32,
    /// Effective user ID.
    pub euid: u32,
}

/// The refusal to switch to another user without setuid root.
pub open spec fn setuid_error(username: Seq<char>, exe: Seq<char>) -> Seq<char> {
    "Cannot run as '"@ + username + "': mcp-wsl must be installed with setuid root.\nFix:\n  sudo chown root:root \""@
        + exe + "\"\n  sudo chmod u+s \""@ + exe + "\""@
}

/// The UID and GID a command runs under: the caller's own when no user is
/// asked for or the user asked for is the caller; the user's when it is
/// another user and the process runs as root; an error otherwise.
pub open spec fn exec_identity(
    user: Option<Seq<char>>,
    ids: ProcessIds,
    passwd: Result<Seq<char>, Seq<char>>,
    exe: Seq<char>,
) -> Result<(u32, u32), Seq<char>> {
    match user {
        None => Ok((ids.uid, ids.gid)),
        Some(u) => match user_lookup(passwd, u) {
            Err(e) => Err(e),
            Ok((target_uid, target_gid)) => if target_uid == ids.uid {
                Ok((ids.uid, ids.gid))
            } else if ids.euid != 0 {
                Err(setuid_error(u, exe))
            } else {
                Ok((target_uid, target_gid))
            },
        },
    }
}

pub open spec fn opt_view(o: Option<String>) -> Option<Seq<char>> {
    match o {
        Some(s) => Some(s@),
        None => None,
    }
}

/// Decides the UID and GID for a command; `exe` is the path of this
/// program, shown in the fix that the error suggests.
pub fn resolve_exec_user(
    user: &Option<String>,
    ids: &ProcessIds,
    passwd: &Result<String, String>,
    exe: &str,
) -> (r: Result<(u32, u32), String>)
    ensures
        ids_view(r) == exec_identity(opt_view(*user), *ids, read_view(*passwd), exe@),
{
    let username = match user {
        None => { return Ok((ids.uid, ids.gid)); },
        Some(u) => u,
    };
    let (target_uid, target_gid) = match lookup_user(passwd, username.as_str()) {
        Err(e) => { return Err(e); },
        Ok(p) => p,
    };
    if target_uid == ids.uid {
        return Ok((ids.uid, ids.gid));
    }
    if ids.euid != 0 {
        let mut m = String::new();
        push_str(&mut m, "Cannot run as '");
        push_str(&mut m, username.as_str());
        push_str(&mut m, "': mcp-wsl must be installed with setuid root.\nFix:\n  sudo chown root:root \"");
        push_str(&mut m, exe);
        push_str(&mut m, "\"\n  sudo chmod u+s \"");
        push_str(&mut m, exe);
        push_str(&mut m, "\"");
        return Err(m);
    }
    Ok((target_uid, target_gid))
}

} // verus!
