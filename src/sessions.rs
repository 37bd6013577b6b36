//! The list of interactive sessions, read from the station listing that the
//! OS layer writes as UTF-16 text: `Type:sid` entries separated by commas,
//! padded with NULs.
use vstd::prelude::*;

verus! {

/// The comma that separates entries.
pub const COMMA: u16 = 0x2c;

/// The colon between an entry's station type and its session id.
pub const COLON: u16 = 0x3a;

/// The plus sign that may open a number.
pub const PLUS: u16 = 0x2b;

/// The console session id that means there is no console session.
pub const NO_CONSOLE: u32 = 0xFFFF_FFFF;

/// A UTF-16 unit that is a white-space character.
pub open spec fn is_space(u: u16) -> bool {
    (0x09 <= u <= 0x0d) || u == 0x20 || u == 0x85 || u == 0xa0 || u == 0x1680 || (0x2000 <= u
        <= 0x200a) || u == 0x2028 || u == 0x2029 || u == 0x202f || u == 0x205f || u == 0x3000
}

/// A unit that trimming drops: NUL, or with `space` white space.
pub open spec fn trimmed_unit(u: u16, space: bool) -> bool {
    if space {
        is_space(u)
    } else {
        u == 0
    }
}

/// The end of `s[b..e]` once trailing units that trimming drops are gone.
pub open spec fn trim_back(s: Seq<u16>, b: int, e: int, space: bool) -> int
    decreases e - b,
{
    if b < e && trimmed_unit(s[e - 1], space) {
        trim_back(s, b, e - 1, space)
    } else {
        e
    }
}

/// The start of `s[b..e]` once leading units that trimming drops are gone.
pub open spec fn trim_front(s: Seq<u16>, b: int, e: int, space: bool) -> int
    decreases e - b,
{
    if b < e && trimmed_unit(s[b], space) {
        trim_front(s, b + 1, e, space)
    } else {
        b
    }
}

/// The listing with NULs trimmed from both ends, then white space.
pub open spec fn trimmed(s: Seq<u16>) -> Seq<u16> {
    let e0 = trim_back(s, 0, s.len() as int, false);
    let b0 = trim_front(s, 0, e0, false);
    let e1 = trim_back(s, b0, e0, true);
    let b1 = trim_front(s, b0, e1, true);
    s.subrange(b1, e1)
}

/// `t` cut at every `sep`: one more piece than there are separators.
pub open spec fn split_units(t: Seq<u16>, sep: u16) -> Seq<Seq<u16>>
    decreases t.len(),
{
    if t.len() == 0 {
        seq![Seq::empty()]
    } else {
        let init = split_units(t.drop_last(), sep);
        if t.last() == sep {
            init.push(Seq::empty())
        } else {
            init.update(init.len() - 1, init.last().push(t.last()))
        }
    }
}

/// A decimal digit.
pub open spec fn is_digit(u: u16) -> bool {
    0x30 <= u <= 0x39
}

/// The value of a run of decimal digits.
pub open spec fn digits_value(d: Seq<u16>) -> int
    decreases d.len(),
{
    if d.len() == 0 {
        0
    } else {
        digits_value(d.drop_last()) * 10 + (d.last() - 0x30)
    }
}

/// A non-empty run of decimal digits.
pub open spec fn all_digits(d: Seq<u16>) -> bool {
    d.len() > 0 && forall|i: int| 0 <= i < d.len() ==> is_digit(#[trigger] d[i])
}

/// The digits of a number, after an optional leading plus sign.
pub open spec fn unsigned_part(p: Seq<u16>) -> Seq<u16> {
    if p.len() > 0 && p[0] == PLUS {
        p.subrange(1, p.len() as int)
    } else {
        p
    }
}

/// `p` read as a `u32`: an optional plus sign, then at least one digit, and
/// a value that fits.
pub open spec fn parse_u32(p: Seq<u16>) -> Option<u32> {
    let d = unsigned_part(p);
    if all_digits(d) && digits_value(d) <= u32::MAX {
        Some(digits_value(d) as u32)
    } else {
        None
    }
}

/// `p` holds `sep` at `k` and nowhere else.
pub open spec fn only_at(p: Seq<u16>, sep: u16, k: int) -> bool {
    &&& 0 <= k < p.len()
    &&& p[k] == sep
    &&& forall|j: int| 0 <= j < p.len() && j != k ==> p[j] != sep
}

/// The session id of an entry: an entry has exactly one colon, and a number
/// after it.
pub open spec fn entry_sid(p: Seq<u16>) -> Option<u32> {
    if exists|k: int| only_at(p, COLON, k) {
        let k = choose|k: int| only_at(p, COLON, k);
        parse_u32(p.subrange(k + 1, p.len() as int))
    } else {
        None
    }
}

/// The station type of an entry: the text before its colon.
pub open spec fn entry_station(p: Seq<u16>) -> Seq<u16> {
    let k = choose|k: int| only_at(p, COLON, k);
    p.subrange(0, k)
}

/// A listed session: its id and the station type it is listed under.
pub type Listed = (u32, Seq<u16>);

/// The session ids of a list of sessions.
pub open spec fn sids_of(v: Seq<Listed>) -> Seq<u32> {
    v.map_values(|e: Listed| e.0)
}

/// `v` with the session of entry `p` added at the end, unless the entry is
/// malformed or its id is listed already.
pub open spec fn add_listed(v: Seq<Listed>, p: Seq<u16>) -> Seq<Listed> {
    match entry_sid(p) {
        Some(sid) => if sids_of(v).contains(sid) {
            v
        } else {
            v.push((sid, entry_station(p)))
        },
        None => v,
    }
}

/// `start` followed by the sessions of `pieces`, in order, each id at most
/// once.
pub open spec fn collect_sessions(start: Seq<Listed>, pieces: Seq<Seq<u16>>) -> Seq<Listed>
    decreases pieces.len(),
{
    if pieces.len() == 0 {
        start
    } else {
        add_listed(collect_sessions(start, pieces.drop_last()), pieces.last())
    }
}

/// The station label of the console session, `Console`.
pub open spec fn console_label() -> Seq<u16> {
    seq![0x43u16, 0x6f, 0x6e, 0x73, 0x6f, 0x6c, 0x65]
}

/// The list starts with the console session, if there is one.
pub open spec fn console_start(console: u32) -> Seq<Listed> {
    if console != NO_CONSOLE {
        seq![(console, console_label())]
    } else {
        Seq::empty()
    }
}

/// The available sessions: the console session first, then those of the
/// listing's entries in order, each id once.
pub open spec fn session_list(console: u32, listing: Seq<u16>) -> Seq<Listed> {
    collect_sessions(console_start(console), split_units(trimmed(listing), COMMA))
}

/// `: `, between a station type and a user name.
pub open spec fn name_separator() -> Seq<u16> {
    seq![0x3au16, 0x20]
}

/// ` (sid = `, before the id that tells equal names apart.
pub open spec fn sid_note() -> Seq<u16> {
    seq![0x20u16, 0x28, 0x73, 0x69, 0x64, 0x20, 0x3d, 0x20]
}

/// `)`, after that id.
pub open spec fn note_end() -> Seq<u16> {
    seq![0x29u16]
}

/// ` (running)`, after the name of the session this process runs in.
pub open spec fn running_note() -> Seq<u16> {
    seq![0x20u16, 0x28, 0x72, 0x75, 0x6e, 0x6e, 0x69, 0x6e, 0x67, 0x29]
}

/// The decimal digits of `n`.
pub open spec fn decimal(n: nat) -> Seq<u16>
    decreases n,
{
    if n < 10 {
        seq![(0x30 + n) as u16]
    } else {
        decimal(n / 10).push((0x30 + n % 10) as u16)
    }
}

/// A session's name before equal names are told apart: its station type,
/// then `: ` and the user's name if the session has a user.
pub open spec fn base_name(station: Seq<u16>, user: Seq<u16>) -> Seq<u16> {
    if user.len() == 0 {
        station
    } else {
        station + name_separator() + user
    }
}

/// How many of `names` equal `n`.
pub open spec fn count_of(names: Seq<Seq<u16>>, n: Seq<u16>) -> nat
    decreases names.len(),
{
    if names.len() == 0 {
        0
    } else {
        count_of(names.drop_last(), n) + if names.last() == n {
            1nat
        } else {
            0nat
        }
    }
}

/// The displayed name of session `sid`, whose base name is `bases[i]`: a
/// base name that two sessions share gets ` (sid = <sid>)`, and the session
/// that `current` names (when not 0) gets ` (running)`.
pub open spec fn display_name(bases: Seq<Seq<u16>>, i: int, sid: u32, current: u32) -> Seq<u16> {
    let named = if count_of(bases, bases[i]) > 1 {
        bases[i] + sid_note() + decimal(sid as nat) + note_end()
    } else {
        bases[i]
    };
    if sid == current && current != 0 {
        named + running_note()
    } else {
        named
    }
}


fn is_trimmed_unit(u: u16, space: bool) -> (r: bool)
    ensures
        r == trimmed_unit(u, space),
{
    if space {
        (0x09 <= u && u <= 0x0d) || u == 0x20 || u == 0x85 || u == 0xa0 || u == 0x1680 || (0x2000
            <= u && u <= 0x200a) || u == 0x2028 || u == 0x2029 || u == 0x202f || u == 0x205f || u
            == 0x3000
    } else {
        u == 0
    }
}

fn back_trim(s: &Vec<u16>, b: usize, e: usize, space: bool) -> (r: usize)
    requires
        b <= e <= s.len(),
    ensures
        r == trim_back(s@, b as int, e as int, space),
        b <= r <= e,
{
    let mut end = e;
    while end > b && is_trimmed_unit(s[end - 1], space)
        invariant
            b <= end <= e <= s.len(),
            trim_back(s@, b as int, end as int, space) == trim_back(s@, b as int, e as int, space),
        decreases end,
    {
        end -= 1;
    }
    end
}

fn front_trim(s: &Vec<u16>, b: usize, e: usize, space: bool) -> (r: usize)
    requires
        b <= e <= s.len(),
    ensures
        r == trim_front(s@, b as int, e as int, space),
        b <= r <= e,
{
    let mut start = b;
    while start < e && is_trimmed_unit(s[start], space)
        invariant
            b <= start <= e <= s.len(),
            trim_front(s@, start as int, e as int, space) == trim_front(
                s@,
                b as int,
                e as int,
                space,
            ),
        decreases e - start,
    {
        start += 1;
    }
    start
}

/// Lemma: a longer run of digits is worth at least as much as its prefix.
proof fn lemma_digits_grow(d: Seq<u16>, i: int)
    requires
        0 <= i <= d.len(),
        forall|j: int| 0 <= j < d.len() ==> is_digit(#[trigger] d[j]),
    ensures
        digits_value(d.subrange(0, i)) <= digits_value(d),
    decreases d.len() - i,
{
    if i < d.len() {
        lemma_digits_grow(d, i + 1);
        assert(d.subrange(0, i + 1).drop_last() =~= d.subrange(0, i));
        assert(digits_value(d.subrange(0, i)) >= 0) by {
            lemma_digits_nonneg(d.subrange(0, i));
        }
    } else {
        assert(d.subrange(0, i) =~= d);
    }
}

proof fn lemma_digits_nonneg(d: Seq<u16>)
    requires
        forall|j: int| 0 <= j < d.len() ==> is_digit(#[trigger] d[j]),
    ensures
        digits_value(d) >= 0,
    decreases d.len(),
{
    if d.len() > 0 {
        lemma_digits_nonneg(d.drop_last());
    }
}

/// Reads `s[b..e]` as a `u32`.
pub fn parse_u32_units(s: &Vec<u16>, b: usize, e: usize) -> (r: Option<u32>)
    requires
        b <= e <= s.len(),
    ensures
        r == parse_u32(s@.subrange(b as int, e as int)),
{
    let ghost p = s@.subrange(b as int, e as int);
    let start = if b < e && s[b] == PLUS {
        b + 1
    } else {
        b
    };
    let ghost d = s@.subrange(start as int, e as int);
    assert(unsigned_part(p) =~= d);
    if start == e {
        return None;
    }
    let mut value: u64 = 0;
    let mut i = start;
    while i < e
        invariant
            b <= start <= i <= e <= s.len(),
            d == s@.subrange(start as int, e as int),
            unsigned_part(s@.subrange(b as int, e as int)) == d,
            value == digits_value(s@.subrange(start as int, i as int)),
            value <= u32::MAX,
            forall|j: int| start <= j < i ==> is_digit(#[trigger] s@[j]),
        decreases e - i,
    {
        let u = s[i];
        if u < 0x30 || u > 0x39 {
            assert(!is_digit(d[i - start]));
            return None;
        }
        assert(s@.subrange(start as int, i + 1).drop_last() =~= s@.subrange(start as int, i as int));
        assert(s@.subrange(start as int, i + 1).last() == u);
        value = value * 10 + (u - 0x30) as u64;
        if value > u32::MAX as u64 {
            proof {
                if all_digits(d) {
                    lemma_digits_grow(d, i + 1 - start);
                    assert(d.subrange(0, i + 1 - start) =~= s@.subrange(start as int, i + 1));
                }
            }
            return None;
        }
        i += 1;
    }
    assert(s@.subrange(start as int, e as int) =~= d);
    assert forall|j: int| 0 <= j < d.len() implies is_digit(#[trigger] d[j]) by {
        assert(d[j] == s@[start + j]);
    }
    Some(value as u32)
}

/// The session of the entry `s[b..e]`, with the position of its colon.
pub fn entry_units(s: &Vec<u16>, b: usize, e: usize) -> (r: Option<(u32, usize)>)
    requires
        b <= e <= s.len(),
    ensures
        ({
            let p = s@.subrange(b as int, e as int);
            match r {
                Some((sid, at)) => {
                    &&& entry_sid(p) == Some(sid)
                    &&& b <= at < e
                    &&& s@.subrange(b as int, at as int) == entry_station(p)
                },
                None => entry_sid(p) is None,
            }
        }),
{
    let ghost p = s@.subrange(b as int, e as int);
    let mut colons: usize = 0;
    let mut at: usize = b;
    let mut j = b;
    while j < e
        invariant
            b <= j <= e <= s.len(),
            p == s@.subrange(b as int, e as int),
            colons <= 1,
            colons == 0 ==> forall|q: int| b <= q < j ==> s@[q] != COLON,
            colons == 1 ==> b <= at < j && s@[at as int] == COLON && forall|q: int|
                b <= q < j && q != at ==> s@[q] != COLON,
        decreases e - j,
    {
        if s[j] == COLON {
            if colons == 1 {
                proof {
                    assert forall|k: int| !only_at(p, COLON, k) by {
                        if only_at(p, COLON, k) {
                            assert(p[at - b] == COLON);
                            assert(p[j - b] == COLON);
                        }
                    }
                }
                return None;
            }
            colons = 1;
            at = j;
        }
        j += 1;
    }
    if colons == 0 {
        assert forall|k: int| !only_at(p, COLON, k) by {
            if 0 <= k < p.len() {
                assert(p[k] == s@[b + k]);
            }
        }
        return None;
    }
    let ghost k = at - b;
    assert(only_at(p, COLON, k));
    assert forall|k2: int| only_at(p, COLON, k2) implies k2 == k by {
        if k2 != k {
            assert(p[k] == COLON);
        }
    }
    assert(p.subrange(k + 1, p.len() as int) =~= s@.subrange(at + 1, e as int));
    assert(p.subrange(0, k) =~= s@.subrange(b as int, at as int));
    match parse_u32_units(s, at + 1, e) {
        Some(sid) => Some((sid, at)),
        None => None,
    }
}

/// A listed session: its id and the station type it is listed under.
pub struct SessionEntry {
    pub sid: u32,
    pub station: Vec<u16>,
}

impl View for SessionEntry {
    type V = Listed;

    open spec fn view(&self) -> Listed {
        (self.sid, self.station@)
    }
}

/// The views of a list of entries.
pub open spec fn listed_of(v: Seq<SessionEntry>) -> Seq<Listed> {
    v.map_values(|e: SessionEntry| e@)
}

fn lists_sid(v: &Vec<SessionEntry>, sid: u32) -> (r: bool)
    ensures
        r == sids_of(listed_of(v@)).contains(sid),
{
    let mut i: usize = 0;
    while i < v.len()
        invariant
            i <= v.len(),
            forall|j: int| 0 <= j < i ==> v@[j].sid != sid,
        decreases v.len() - i,
    {
        if v[i].sid == sid {
            assert(sids_of(listed_of(v@))[i as int] == sid);
            return true;
        }
        i += 1;
    }
    assert forall|j: int| 0 <= j < sids_of(listed_of(v@)).len() implies sids_of(listed_of(v@))[j]
        != sid by {
        assert(sids_of(listed_of(v@))[j] == v@[j].sid);
    }
    false
}

fn copy_units(s: &Vec<u16>, b: usize, e: usize) -> (r: Vec<u16>)
    requires
        b <= e <= s.len(),
    ensures
        r@ == s@.subrange(b as int, e as int),
{
    let mut r: Vec<u16> = Vec::new();
    let mut i = b;
    while i < e
        invariant
            b <= i <= e <= s.len(),
            r@ == s@.subrange(b as int, i as int),
        decreases e - i,
    {
        r.push(s[i]);
        assert(r@ =~= s@.subrange(b as int, i + 1));
        i += 1;
    }
    r
}

fn console_label_units() -> (r: Vec<u16>)
    ensures
        r@ == console_label(),
{
    let r = vec![0x43u16, 0x6f, 0x6e, 0x73, 0x6f, 0x6c, 0x65];
    assert(r@ =~= console_label());
    r
}

fn add_entry(v: &mut Vec<SessionEntry>, s: &Vec<u16>, b: usize, e: usize)
    requires
        b <= e <= s.len(),
    ensures
        listed_of(final(v)@) == add_listed(listed_of(old(v)@), s@.subrange(b as int, e as int)),
{
    match entry_units(s, b, e) {
        Some((sid, at)) => {
            if !lists_sid(v, sid) {
                let station = copy_units(s, b, at);
                let ghost before = v@;
                v.push(SessionEntry { sid, station });
                assert(listed_of(v@) =~= listed_of(before).push(v@.last()@));
            }
        },
        None => {},
    }
}

/// The available sessions: the console session first, as `Console`, unless
/// `console` is `NO_CONSOLE`; then the sessions of the well-formed entries of
/// `listing`, in order, each id once, under their station types. The listing
/// is trimmed of NULs at both ends, then of white space, and cut at every
/// comma; an entry is well formed when it has exactly one colon and a `u32`
/// after it.
pub fn list_sessions(console: u32, listing: &Vec<u16>) -> (r: Vec<SessionEntry>)
    ensures
        listed_of(r@) == session_list(console, listing@),
{
    let e0 = back_trim(listing, 0, listing.len(), false);
    let b0 = front_trim(listing, 0, e0, false);
    let e1 = back_trim(listing, b0, e0, true);
    let b1 = front_trim(listing, b0, e1, true);
    let ghost t = listing@.subrange(b1 as int, e1 as int);
    assert(t == trimmed(listing@));
    let mut v: Vec<SessionEntry> = Vec::new();
    if console != NO_CONSOLE {
        v.push(SessionEntry { sid: console, station: console_label_units() });
    }
    assert(listed_of(v@) =~= console_start(console));
    let ghost start = listed_of(v@);
    let mut piece_start = b1;
    let mut i = b1;
    while i < e1
        invariant
            b1 <= piece_start <= i <= e1 <= listing.len(),
            t == listing@.subrange(b1 as int, e1 as int),
            split_units(t.subrange(0, i - b1), COMMA).len() >= 1,
            split_units(t.subrange(0, i - b1), COMMA).last() =~= listing@.subrange(
                piece_start as int,
                i as int,
            ),
            listed_of(v@) == collect_sessions(
                start,
                split_units(t.subrange(0, i - b1), COMMA).drop_last(),
            ),
        decreases e1 - i,
    {
        let ghost before = split_units(t.subrange(0, i - b1), COMMA);
        assert(t.subrange(0, i + 1 - b1).drop_last() =~= t.subrange(0, i - b1));
        assert(t.subrange(0, i + 1 - b1).last() == listing@[i as int]);
        if listing[i] == COMMA {
            add_entry(&mut v, listing, piece_start, i);
            proof {
                let after = split_units(t.subrange(0, i + 1 - b1), COMMA);
                assert(after == before.push(Seq::empty()));
                assert(after.drop_last() =~= before);
                assert(before =~= before.drop_last().push(before.last()));
            }
            piece_start = i + 1;
        } else {
            proof {
                let after = split_units(t.subrange(0, i + 1 - b1), COMMA);
                assert(after.drop_last() =~= before.drop_last());
                assert(after.last() =~= listing@.subrange(piece_start as int, i + 1));
            }
        }
        i += 1;
    }
    let ghost pieces = split_units(t.subrange(0, e1 - b1), COMMA);
    assert(t.subrange(0, e1 - b1) =~= t);
    assert(pieces =~= pieces.drop_last().push(pieces.last()));
    add_entry(&mut v, listing, piece_start, e1);
    v
}

/// The ids of the available sessions, in the order of `list_sessions`.
pub fn available_session_ids(console: u32, listing: &Vec<u16>) -> (r: Vec<u32>)
    ensures
        r@ == sids_of(session_list(console, listing@)),
{
    let entries = list_sessions(console, listing);
    let mut r: Vec<u32> = Vec::new();
    let mut i: usize = 0;
    while i < entries.len()
        invariant
            i <= entries.len(),
            listed_of(entries@) == session_list(console, listing@),
            r@ =~= sids_of(listed_of(entries@)).subrange(0, i as int),
        decreases entries.len() - i,
    {
        r.push(entries[i].sid);
        i += 1;
    }
    r
}

fn push_all(out: &mut Vec<u16>, s: &Vec<u16>)
    ensures
        final(out)@ == old(out)@ + s@,
{
    let ghost start = out@;
    let mut i: usize = 0;
    while i < s.len()
        invariant
            i <= s.len(),
            out@ == start + s@.subrange(0, i as int),
        decreases s.len() - i,
    {
        out.push(s[i]);
        assert(out@ =~= start + s@.subrange(0, i + 1));
        i += 1;
    }
    assert(s@.subrange(0, s.len() as int) =~= s@);
}

fn push_decimal(out: &mut Vec<u16>, n: u32)
    ensures
        final(out)@ == old(out)@ + decimal(n as nat),
    decreases n,
{
    let ghost start = out@;
    if n >= 10 {
        push_decimal(out, n / 10);
    }
    out.push(0x30 + (n % 10) as u16);
    assert(out@ =~= start + decimal(n as nat));
}

fn units_equal(a: &Vec<u16>, b: &Vec<u16>) -> (r: bool)
    ensures
        r == (a@ == b@),
{
    if a.len() != b.len() {
        return false;
    }
    let mut i: usize = 0;
    while i < a.len()
        invariant
            a.len() == b.len(),
            i <= a.len(),
            forall|j: int| 0 <= j < i ==> a@[j] == b@[j],
        decreases a.len() - i,
    {
        if a[i] != b[i] {
            return false;
        }
        i += 1;
    }
    assert(a@ =~= b@);
    true
}

/// The unit sequences of a list of buffers.
pub open spec fn units_of(v: Seq<Vec<u16>>) -> Seq<Seq<u16>> {
    v.map_values(|x: Vec<u16>| x@)
}

fn count_name(names: &Vec<Vec<u16>>, n: &Vec<u16>) -> (r: usize)
    ensures
        r == count_of(units_of(names@), n@),
{
    let mut count: usize = 0;
    let mut i: usize = 0;
    while i < names.len()
        invariant
            i <= names.len(),
            count <= i,
            count == count_of(units_of(names@).subrange(0, i as int), n@),
        decreases names.len() - i,
    {
        assert(units_of(names@).subrange(0, i + 1).drop_last() =~= units_of(names@).subrange(
            0,
            i as int,
        ));
        if units_equal(&names[i], n) {
            count += 1;
        }
        i += 1;
    }
    assert(units_of(names@).subrange(0, names.len() as int) =~= units_of(names@));
    count
}

/// The base names of `entries`, whose users' names are `users`.
pub open spec fn base_names(entries: Seq<SessionEntry>, users: Seq<Vec<u16>>) -> Seq<Seq<u16>> {
    Seq::new(entries.len(), |i: int| base_name(entries[i].station@, users[i]@))
}

/// The displayed names of `entries`, one for each, given the name of each
/// session's user (empty where there is none) and `current`, the session
/// this process runs in.
pub fn session_names(entries: &Vec<SessionEntry>, users: &Vec<Vec<u16>>, current: u32) -> (r: Vec<
    Vec<u16>,
>)
    requires
        users.len() == entries.len(),
    ensures
        r.len() == entries.len(),
        forall|i: int|
            0 <= i < r.len() ==> (#[trigger] r@[i])@ == display_name(
                base_names(entries@, users@),
                i,
                entries@[i].sid,
                current,
            ),
{
    let ghost bases_spec = base_names(entries@, users@);
    let mut bases: Vec<Vec<u16>> = Vec::new();
    let mut i: usize = 0;
    while i < entries.len()
        invariant
            users.len() == entries.len(),
            i <= entries.len(),
            bases_spec == base_names(entries@, users@),
            units_of(bases@) =~= bases_spec.subrange(0, i as int),
        decreases entries.len() - i,
    {
        let mut name: Vec<u16> = Vec::new();
        push_all(&mut name, &entries[i].station);
        assert(name@ =~= entries@[i as int].station@);
        if users[i].len() > 0 {
            name.push(0x3a);
            name.push(0x20);
            push_all(&mut name, &users[i]);
            assert(name@ =~= entries@[i as int].station@ + name_separator() + users@[i as int]@);
        }
        assert(name@ == bases_spec[i as int]);
        let ghost before = bases@;
        bases.push(name);
        assert(units_of(bases@) =~= units_of(before).push(name@));
        i += 1;
    }
    let mut names: Vec<Vec<u16>> = Vec::new();
    let mut i: usize = 0;
    while i < entries.len()
        invariant
            users.len() == entries.len(),
            bases.len() == entries.len(),
            i <= entries.len(),
            units_of(bases@) == bases_spec,
            bases_spec == base_names(entries@, users@),
            names.len() == i,
            forall|j: int|
                0 <= j < i ==> (#[trigger] names@[j])@ == display_name(
                    bases_spec,
                    j,
                    entries@[j].sid,
                    current,
                ),
        decreases entries.len() - i,
    {
        let sid = entries[i].sid;
        let count = count_name(&bases, &bases[i]);
        let mut name: Vec<u16> = Vec::new();
        push_all(&mut name, &bases[i]);
        assert(bases@[i as int]@ == bases_spec[i as int]);
        if count > 1 {
            let note = vec![0x20u16, 0x28, 0x73, 0x69, 0x64, 0x20, 0x3d, 0x20];
            assert(note@ =~= sid_note());
            push_all(&mut name, &note);
            push_decimal(&mut name, sid);
            name.push(0x29);
            assert(name@ =~= bases_spec[i as int] + sid_note() + decimal(sid as nat) + note_end());
        }
        if sid == current && current != 0 {
            let note = vec![0x20u16, 0x28, 0x72, 0x75, 0x6e, 0x6e, 0x69, 0x6e, 0x67, 0x29];
            assert(note@ =~= running_note());
            push_all(&mut name, &note);
        }
        names.push(name);
        i += 1;
    }
    names
}

} // verus!
