//! Proton calendars and their events as the API returns them, and the
//! decisions taken on them: how a calendar is shown, whether it may be
//! written, how a time window is split, and which events may be changed.
use vstd::prelude::*;

use crate::properties::{lemma_text_lt_irreflexive, lemma_text_lt_transitive, text_less, text_lt};
use crate::text::{ascii_lower, chars_of, lower_chars, string_of};

verus! {

/// A calendar of the account, as listed by the API.
#[derive(Debug, Clone)]
pub struct CalendarRecord {
    pub id: String,
    pub kind: u32,
    pub flags: u32,
    pub name: String,
    pub color: String,
    pub members: Vec<CalendarMember>,
}

/// The membership of an address in a calendar.
#[derive(Debug, Clone)]
pub struct CalendarMember {
    pub id: String,
    pub address_id: String,
    pub name: String,
    pub color: String,
    pub permissions: Option<u32>,
}

/// Proton's permission bit that allows writing events.
pub const WRITE_PERMISSION: u32 = 16;

/// Calendar flag bit set on calendars that are disabled.
pub const DISABLED_FLAG: u32 = 16;

impl CalendarRecord {
    /// The member's own name for the calendar when it has one, else the
    /// calendar's name when that is not empty.
    pub open spec fn display_name_of(&self) -> Option<Seq<char>> {
        if self.members@.len() > 0 && self.members@[0].name@.len() > 0 {
            Some(self.members@[0].name@)
        } else if self.name@.len() > 0 {
            Some(self.name@)
        } else {
            None
        }
    }

    /// The member's own colour for the calendar when it has one, else the
    /// calendar's colour when that is not empty.
    pub open spec fn display_color_of(&self) -> Option<Seq<char>> {
        if self.members@.len() > 0 && self.members@[0].color@.len() > 0 {
            Some(self.members@[0].color@)
        } else if self.color@.len() > 0 {
            Some(self.color@)
        } else {
            None
        }
    }

    /// A calendar is read-only when it is not a personal calendar (type 0),
    /// when it is disabled, or when the first member's permissions lack the
    /// write bit.
    pub open spec fn is_read_only(&self) -> bool {
        ||| self.kind != 0
        ||| self.flags & DISABLED_FLAG != 0
        ||| (self.members@.len() > 0 && (match self.members@[0].permissions {
            Some(p) => p & WRITE_PERMISSION == 0,
            None => false,
        }))
    }

    /// The name to show for the calendar (see [`Self::display_name_of`]).
    pub fn display_name(&self) -> (r: Option<&str>)
        ensures
            match r {
                Some(s) => self.display_name_of() == Some(s@),
                None => self.display_name_of() is None,
            },
    {
        if self.members.len() > 0 && !self.members[0].name.as_str().is_empty() {
            Some(self.members[0].name.as_str())
        } else if !self.name.as_str().is_empty() {
            Some(self.name.as_str())
        } else {
            None
        }
    }

    /// The colour to show for the calendar (see [`Self::display_color_of`]).
    pub fn display_color(&self) -> (r: Option<&str>)
        ensures
            match r {
                Some(s) => self.display_color_of() == Some(s@),
                None => self.display_color_of() is None,
            },
    {
        if self.members.len() > 0 && !self.members[0].color.as_str().is_empty() {
            Some(self.members[0].color.as_str())
        } else if !self.color.as_str().is_empty() {
            Some(self.color.as_str())
        } else {
            None
        }
    }

    /// Whether events of the calendar may not be written (see
    /// [`Self::is_read_only`]).
    pub fn read_only(&self) -> (r: bool)
        ensures
            r == self.is_read_only(),
    {
        if self.kind != 0 || self.flags & DISABLED_FLAG != 0 {
            return true;
        }
        if self.members.len() > 0 {
            match self.members[0].permissions {
                Some(p) => p & WRITE_PERMISSION == 0,
                None => false,
            }
        } else {
            false
        }
    }
}

/// Only bit 16 of a calendar's flags matters to whether it may be written:
/// two calendars of the same type and members whose flags agree on that bit
/// are both read-only or both writable.
pub proof fn lemma_read_only_ignores_other_flags(c: CalendarRecord, d: CalendarRecord)
    requires
        c.kind == d.kind,
        c.members@ == d.members@,
        c.flags & 16 == d.flags & 16,
    ensures
        c.is_read_only() == d.is_read_only(),
{
}

/// A personal calendar (type 0) that is not disabled (bit 16 of its flags
/// clear) is writable unless its first member's permissions lack bit 16; any
/// other type, the disabled bit, or such permissions make it read-only.
pub proof fn lemma_read_only_cases(c: CalendarRecord)
    ensures
        c.kind != 0 ==> c.is_read_only(),
        c.flags & 16 != 0 ==> c.is_read_only(),
        (c.members@.len() > 0 && c.members@[0].permissions is Some
            && c.members@[0].permissions->0 & 16 == 0)
            ==> c.is_read_only(),
        c.kind == 0 && c.flags & 16 == 0 && (c.members@.len() == 0
            || c.members@[0].permissions is None || c.members@[0].permissions->0 & 16 != 0)
            ==> !c.is_read_only(),
{
}

/// A calendar colour as caldir keeps it: ASCII lower case, with a leading
/// `#` added when it has none.
pub open spec fn normalized_color(color: Seq<char>) -> Seq<char> {
    if color.len() > 0 && color[0] == '#' {
        ascii_lower(color)
    } else {
        seq!['#'] + ascii_lower(color)
    }
}

/// The colour caldir is given for a calendar (see [`normalized_color`]).
pub fn normalize_color(color: &str) -> (r: String)
    ensures
        r@ == normalized_color(color@),
{
    let lowered = lower_chars(&chars_of(color));
    if lowered.len() > 0 && lowered[0] == '#' {
        string_of(&lowered)
    } else {
        let mut out: Vec<char> = Vec::new();
        out.push('#');
        let mut i: usize = 0;
        while i < lowered.len()
            invariant
                i <= lowered.len(),
                out@ == seq!['#'] + lowered@.take(i as int),
            decreases lowered.len() - i,
        {
            out.push(lowered[i]);
            i = i + 1;
            assert(lowered@.take(i as int) == lowered@.take(i - 1).push(lowered@[i - 1]));
        }
        assert(lowered@.take(lowered.len() as int) == lowered@);
        string_of(&out)
    }
}

/// The halves of the window `[from, to]` at its midpoint, or `None` when the
/// window is one second wide or less (or its width overflows an `i64`).
pub open spec fn window_halves(from: i64, to: i64) -> Option<((i64, i64), (i64, i64))> {
    let width = to - from;
    if width < i64::MIN || width > i64::MAX || width <= 1 {
        None
    } else {
        let mid = (from + width / 2) as i64;
        Some(((from, mid), (mid, to)))
    }
}

/// Splits the window `[from, to]` into two halves at its midpoint (see
/// [`window_halves`]).
pub fn split_window(from: i64, to: i64) -> (r: Option<[(i64, i64); 2]>)
    ensures
        match r {
            Some(halves) => window_halves(from, to) == Some((halves[0], halves[1])),
            None => window_halves(from, to) is None,
        },
{
    let width = match to.checked_sub(from) {
        Some(w) => w,
        None => {
            return None;
        },
    };
    if width <= 1 {
        return None;
    }
    let midpoint = from + width / 2;
    Some([(from, midpoint), (midpoint, to)])
}

/// The halves of a split window cover it exactly: the first starts where the
/// window starts, the second ends where it ends, they meet at one midpoint,
/// and each is narrower than the window, so that repeated splitting ends.
pub proof fn lemma_split_window_covers(from: i64, to: i64)
    requires
        window_halves(from, to) is Some,
    ensures
        ({
            let (a, b) = window_halves(from, to)->0;
            &&& a.0 == from
            &&& b.1 == to
            &&& a.1 == b.0
            &&& from < a.1 < to
            &&& a.1 - a.0 < to - from
            &&& b.1 - b.0 < to - from
        }),
{
}

/// An encrypted or signed card of an event.
#[derive(Debug, Clone)]
pub struct EventPayload {
    pub kind: u8,
    pub data: String,
    pub signature: Option<String>,
    pub author: String,
}

/// A notification of an event: its kind and its ISO-8601 trigger.
#[derive(Debug, Clone)]
pub struct Notification {
    pub kind: u8,
    pub trigger: String,
}

/// The attendees of an event, each as the JSON text the API sent.
#[derive(Debug, Clone)]
pub struct AttendeesInfo {
    pub attendees: Vec<String>,
}

/// An event as the API returns it: clear metadata and encrypted cards.
#[derive(Debug, Clone)]
pub struct RawEvent {
    pub id: String,
    pub start_time: i64,
    pub end_time: i64,
    pub start_timezone: Option<String>,
    pub end_timezone: Option<String>,
    pub full_day: u8,
    pub uid: String,
    pub rrule: Option<String>,
    pub recurrence_id: Option<i64>,
    pub exdates: Vec<i64>,
    pub modify_time: Option<i64>,
    pub sequence: Option<i64>,
    pub permissions: Option<u32>,
    pub is_organizer: Option<u8>,
    pub shared_key_packet: Option<String>,
    pub address_key_packet: Option<String>,
    pub calendar_key_packet: Option<String>,
    pub shared_events: Vec<EventPayload>,
    pub calendar_events: Vec<EventPayload>,
    pub attendees_events: Vec<EventPayload>,
    pub attendees_info: AttendeesInfo,
    pub notifications: Option<Vec<Notification>>,
}

/// Why an event may not be changed.
#[derive(Debug, Clone, Copy, PartialEq, Eq, Structural)]
pub enum MutationError {
    /// The event has attendees or was organised by someone else.
    InvitationNotSupported,
}

impl MutationError {
    /// The message the refusal is reported with.
    pub fn message(&self) -> (r: &'static str)
        ensures
            r@ == "Proton attendee and invitation writes are not supported; this event was not changed"@,
    {
        "Proton attendee and invitation writes are not supported; this event was not changed"
    }
}

/// An event may be changed only when it has no attendees and the account is
/// not known to be a mere invitee.
pub open spec fn may_mutate(raw: &RawEvent) -> bool {
    raw.attendees_info.attendees@.len() == 0 && raw.is_organizer != Some(0u8)
}

/// Refuses changes to events with attendees or organised by someone else.
pub fn guard_mutation(raw: &RawEvent) -> (r: Result<(), MutationError>)
    ensures
        r is Ok <==> may_mutate(raw),
{
    if raw.attendees_info.attendees.len() > 0 {
        return Err(MutationError::InvitationNotSupported);
    }
    match raw.is_organizer {
        Some(v) => {
            if v == 0 {
                return Err(MutationError::InvitationNotSupported);
            }
        },
        None => {},
    }
    Ok(())
}

/// The sequence number an updated event is written with: one more than the
/// greater of the local sequence and the server's (missing counts as 0, a
/// value beyond `i32` as `i32::MAX`), saturating at `i32::MAX`.
pub open spec fn next_sequence_of(local: i32, remote: Option<i64>) -> i32 {
    let r = match remote {
        Some(v) => v,
        None => 0,
    };
    let remote32: i32 = if i32::MIN <= r && r <= i32::MAX {
        r as i32
    } else {
        i32::MAX
    };
    let m: i32 = if local >= remote32 {
        local
    } else {
        remote32
    };
    if m == i32::MAX {
        i32::MAX
    } else {
        (m + 1) as i32
    }
}

/// An update supersedes both versions it knows of: its sequence number is
/// above the local one and above the server's, unless that one is already
/// `i32::MAX`, where it stays.
pub proof fn lemma_next_sequence_supersedes(local: i32, remote: Option<i64>)
    ensures
        local < i32::MAX ==> next_sequence_of(local, remote) > local,
        local == i32::MAX ==> next_sequence_of(local, remote) == i32::MAX,
        (remote matches Some(r) && i32::MIN <= r < i32::MAX) ==> next_sequence_of(local, remote)
            > remote->0,
        remote is None && local < 0 ==> next_sequence_of(local, remote) == 1,
{
}

/// The sequence number an updated event is written with (see
/// [`next_sequence_of`]).
pub fn next_sequence(local: i32, remote: Option<i64>) -> (r: i32)
    ensures
        r == next_sequence_of(local, remote),
{
    let r: i64 = match remote {
        Some(v) => v,
        None => 0,
    };
    let remote32: i32 = if i32::MIN as i64 <= r && r <= i32::MAX as i64 {
        r as i32
    } else {
        i32::MAX
    };
    let m = if local >= remote32 {
        local
    } else {
        remote32
    };
    if m == i32::MAX {
        i32::MAX
    } else {
        m + 1
    }
}

/// The index of the first item equal to `x`, if any.
pub open spec fn first_index_of(items: Seq<Seq<char>>, x: Seq<char>) -> Option<int>
    decreases items.len(),
{
    if items.len() == 0 {
        None
    } else if items[0] == x {
        Some(0)
    } else {
        match first_index_of(items.skip(1), x) {
            Some(i) => Some(i + 1),
            None => None,
        }
    }
}

proof fn lemma_first_index_of(items: Seq<Seq<char>>, x: Seq<char>, i: int)
    requires
        0 <= i <= items.len(),
        forall|j: int| 0 <= j < i ==> items[j] != x,
        i < items.len() ==> items[i] == x,
    ensures
        first_index_of(items, x) == if i < items.len() {
            Some(i)
        } else {
            None
        },
    decreases items.len(),
{
    if i > 0 {
        lemma_first_index_of(items.skip(1), x, i - 1);
    }
}

/// The index of the first item equal to `x` (see [`first_index_of`]).
pub fn position_of(items: &Vec<String>, x: &str) -> (r: Option<usize>)
    ensures
        r matches Some(i) ==> i < items@.len(),
        match r {
            Some(i) => first_index_of(crate::ics::views(items@), x@) == Some(i as int),
            None => first_index_of(crate::ics::views(items@), x@) is None,
        },
{
    let ghost v = crate::ics::views(items@);
    let key = crate::text::chars_of(x);
    let mut i: usize = 0;
    while i < items.len()
        invariant
            i <= items.len(),
            v == crate::ics::views(items@),
            key@ == x@,
            forall|j: int| 0 <= j < i ==> v[j] != x@,
        decreases items.len() - i,
    {
        let item = crate::text::chars_of(items[i].as_str());
        if crate::text::chars_equal(&item, &key) {
            proof {
                lemma_first_index_of(v, x@, i as int);
            }
            return Some(i);
        }
        i = i + 1;
    }
    proof {
        lemma_first_index_of(v, x@, i as int);
    }
    None
}

/// Calendars are in order of their IDs: no ID is less than one before it.
pub open spec fn ids_ascending(cs: Seq<CalendarRecord>) -> bool {
    forall|i: int, j: int| 0 <= i < j < cs.len() ==> !text_lt(cs[j].id@, cs[i].id@)
}

/// Whether a calendar has the given ID.
pub open spec fn id_is(id: Seq<char>) -> spec_fn(CalendarRecord) -> bool {
    |c: CalendarRecord| c.id@ == id
}

/// The calendars with the given ID, in their order.
pub open spec fn with_id(cs: Seq<CalendarRecord>, id: Seq<char>) -> Seq<CalendarRecord> {
    cs.filter(id_is(id))
}

proof fn lemma_with_id_append(a: Seq<CalendarRecord>, b: Seq<CalendarRecord>, id: Seq<char>)
    ensures
        with_id(a + b, id) == with_id(a, id) + with_id(b, id),
{
    Seq::filter_distributes_over_add(a, b, id_is(id));
}

proof fn lemma_with_id_absent(s: Seq<CalendarRecord>, id: Seq<char>)
    requires
        forall|k: int| 0 <= k < s.len() ==> s[k].id@ != id,
    ensures
        with_id(s, id) == Seq::<CalendarRecord>::empty(),
    decreases s.len(),
{
    reveal(Seq::filter);
    if s.len() > 0 {
        lemma_with_id_absent(s.drop_last(), id);
        assert(s.last() == s[s.len() - 1]);
    }
}

proof fn lemma_with_id_one(c: CalendarRecord, id: Seq<char>)
    ensures
        with_id(seq![c], id) == if c.id@ == id {
            seq![c]
        } else {
            Seq::<CalendarRecord>::empty()
        },
{
    reveal(Seq::filter);
    assert(seq![c].drop_last() =~= Seq::<CalendarRecord>::empty());
    assert(seq![c].last() == c);
    assert(Seq::<CalendarRecord>::empty().filter(id_is(id)) =~= Seq::<CalendarRecord>::empty());
    if c.id@ == id {
        assert(Seq::<CalendarRecord>::empty().push(c) =~= seq![c]);
    }
}

/// The calendars in ascending order of their IDs, as the listing reports
/// them; calendars with equal IDs keep the order they came in.
pub fn sorted_by_id(calendars: Vec<CalendarRecord>) -> (r: Vec<CalendarRecord>)
    ensures
        ids_ascending(r@),
        r@.to_multiset() == calendars@.to_multiset(),
        forall|id: Seq<char>| #[trigger] with_id(r@, id) == with_id(calendars@, id),
{
    broadcast use vstd::seq_lib::group_to_multiset_ensures;

    let ghost given = calendars@;
    let mut rest = calendars;
    let mut out: Vec<CalendarRecord> = Vec::new();
    assert(rest@.skip(0) =~= rest@);
    assert forall|id: Seq<char>| #[trigger] with_id(given, id) == with_id(out@, id) + with_id(
        rest@,
        id,
    ) by {
        lemma_with_id_absent(out@, id);
        assert(with_id(out@, id) + with_id(rest@, id) =~= with_id(rest@, id));
    }
    while rest.len() > 0
        invariant
            ids_ascending(out@),
            out@.to_multiset().add(rest@.to_multiset()) == given.to_multiset(),
            forall|id: Seq<char>| #[trigger] with_id(given, id) == with_id(out@, id) + with_id(
                rest@,
                id,
            ),
        decreases rest.len(),
    {
        let ghost before = rest@;
        let item = rest.remove(0);
        assert(before.remove(0) =~= rest@);
        let key = chars_of(item.id.as_str());
        let mut pos: usize = 0;
        while pos < out.len()
            invariant
                pos <= out.len(),
                key@ == item.id@,
                forall|k: int| 0 <= k < pos ==> !text_lt(item.id@, #[trigger] out@[k].id@),
            ensures
                pos <= out.len(),
                forall|k: int| 0 <= k < pos ==> !text_lt(item.id@, #[trigger] out@[k].id@),
                pos < out.len() ==> text_lt(item.id@, out@[pos as int].id@),
            decreases out.len() - pos,
        {
            let other = chars_of(out[pos].id.as_str());
            if text_less(&key, &other) {
                break;
            }
            pos = pos + 1;
        }
        let ghost old_out = out@;
        proof {
            assert forall|k: int| pos <= k < old_out.len() implies !text_lt(
                old_out[k].id@,
                item.id@,
            ) by {
                if text_lt(old_out[k].id@, item.id@) {
                    lemma_text_lt_transitive(old_out[k].id@, item.id@, old_out[pos as int].id@);
                    if k == pos {
                        lemma_text_lt_irreflexive(old_out[k].id@);
                    }
                }
            }
        }
        out.insert(pos, item);
        proof {
            let n = out@;
            assert(n.remove(pos as int) =~= old_out);
            assert(n.to_multiset() =~= old_out.to_multiset().insert(item)) by {
                broadcast use vstd::multiset::group_multiset_axioms;

                vstd::seq_lib::to_multiset_remove(n, pos as int);
                n.to_multiset_ensures();
                assert(n.contains(n[pos as int]));
                assert(n.to_multiset().count(item) > 0);
                assert(n.to_multiset() =~= n.to_multiset().remove(item).insert(item));
            }
            assert(before.to_multiset() =~= rest@.to_multiset().insert(item)) by {
                broadcast use vstd::multiset::group_multiset_axioms;

                vstd::seq_lib::to_multiset_remove(before, 0);
                before.to_multiset_ensures();
                assert(before.contains(before[0]));
                assert(before.to_multiset().count(item) > 0);
                assert(before.to_multiset() =~= before.to_multiset().remove(item).insert(item));
            }
            assert forall|i: int, j: int| 0 <= i < j < n.len() implies !text_lt(
                n[j].id@,
                n[i].id@,
            ) by {
                if j < pos {
                    assert(n[i] == old_out[i] && n[j] == old_out[j]);
                } else if j == pos {
                    assert(n[i] == old_out[i]);
                } else if i == pos {
                    assert(n[j] == old_out[j - 1]);
                } else if i < pos {
                    assert(n[i] == old_out[i] && n[j] == old_out[j - 1]);
                } else {
                    assert(n[i] == old_out[i - 1] && n[j] == old_out[j - 1]);
                }
            }
            let a = old_out.take(pos as int);
            let b = old_out.skip(pos as int);
            assert(old_out =~= a + b);
            assert(n =~= a + seq![item] + b);
            assert(before =~= seq![item] + rest@);
            assert forall|k: int| 0 <= k < b.len() implies b[k].id@ != item.id@ by {
                assert(b[k] == old_out[pos + k]);
                if b[k].id@ == item.id@ {
                    if k == 0 {
                        lemma_text_lt_irreflexive(item.id@);
                    } else {
                        assert(!text_lt(old_out[pos + k].id@, old_out[pos as int].id@));
                    }
                }
            }
            assert forall|id: Seq<char>| #[trigger] with_id(given, id) == with_id(n, id) + with_id(
                rest@,
                id,
            ) by {
                lemma_with_id_append(a + seq![item], b, id);
                lemma_with_id_append(a, seq![item], id);
                lemma_with_id_append(a, b, id);
                lemma_with_id_append(seq![item], rest@, id);
                lemma_with_id_one(item, id);
                if id == item.id@ {
                    lemma_with_id_absent(b, id);
                    assert(with_id(n, id) =~= with_id(a, id) + seq![item]);
                    assert(with_id(old_out, id) =~= with_id(a, id));
                    assert(with_id(before, id) =~= seq![item] + with_id(rest@, id));
                    assert(with_id(n, id) + with_id(rest@, id) =~= with_id(old_out, id) + with_id(
                        before,
                        id,
                    ));
                } else {
                    assert(with_id(n, id) =~= with_id(a, id) + with_id(b, id));
                    assert(with_id(before, id) =~= with_id(rest@, id));
                }
            }
        }
    }
    assert(rest@ =~= Seq::<CalendarRecord>::empty());
    assert forall|id: Seq<char>| #[trigger] with_id(out@, id) == with_id(given, id) by {
        lemma_with_id_absent(rest@, id);
        assert(with_id(out@, id) + with_id(rest@, id) =~= with_id(out@, id));
    }
    out
}

/// The first member whose address is one of the unlocked addresses, with
/// the first unlocked address of that ID.
pub open spec fn member_choice(members: Seq<CalendarMember>, address_ids: Seq<Seq<char>>) -> Option<
    (int, int),
>
    decreases members.len(),
{
    if members.len() == 0 {
        None
    } else {
        match first_index_of(address_ids, members[0].address_id@) {
            Some(a) => Some((0, a)),
            None => match member_choice(members.skip(1), address_ids) {
                Some((m, a)) => Some((m + 1, a)),
                None => None,
            },
        }
    }
}

/// The member of a calendar the account acts as, and its address (see
/// [`member_choice`]).
pub fn select_member(members: &Vec<CalendarMember>, address_ids: &Vec<String>) -> (r: Option<
    (usize, usize),
>)
    ensures
        r matches Some((m, a)) ==> m < members@.len() && a < address_ids@.len(),
        match r {
            Some((m, a)) => member_choice(members@, crate::ics::views(address_ids@)) == Some(
                (m as int, a as int),
            ),
            None => member_choice(members@, crate::ics::views(address_ids@)) is None,
        },
{
    let ghost ids = crate::ics::views(address_ids@);
    let mut i: usize = 0;
    assert(members@.skip(0) =~= members@);
    while i < members.len()
        invariant
            i <= members.len(),
            ids == crate::ics::views(address_ids@),
            member_choice(members@, ids) == match member_choice(members@.skip(i as int), ids) {
                Some((m, a)) => Some((m + i, a)),
                None => None,
            },
        decreases members.len() - i,
    {
        let ghost rest = members@.skip(i as int);
        assert(rest[0] == members@[i as int]);
        assert(rest.skip(1) =~= members@.skip(i + 1));
        match position_of(address_ids, members[i].address_id.as_str()) {
            Some(a) => {
                return Some((i, a));
            },
            None => {},
        }
        i = i + 1;
    }
    assert(members@.skip(members.len() as int) =~= Seq::<CalendarMember>::empty());
    None
}

/// The calendar key flag of the primary key.
pub const PRIMARY_KEY_FLAG: u32 = 2;

/// The key of a calendar to unlock: the first key flagged primary, else the
/// first key.
pub open spec fn calendar_key_choice(flags: Seq<u32>) -> Option<int> {
    if exists|i: int| 0 <= i < flags.len() && flags[i] & PRIMARY_KEY_FLAG != 0 {
        Some(
            choose|i: int|
                0 <= i < flags.len() && flags[i] & PRIMARY_KEY_FLAG != 0 && forall|j: int|
                    0 <= j < i ==> flags[j] & PRIMARY_KEY_FLAG == 0,
        )
    } else if flags.len() > 0 {
        Some(0)
    } else {
        None
    }
}

/// The key of a calendar to unlock, by the flags of its keys (see
/// [`calendar_key_choice`]).
pub fn select_calendar_key(flags: &Vec<u32>) -> (r: Option<usize>)
    ensures
        r matches Some(i) ==> i < flags@.len(),
        match r {
            Some(i) => calendar_key_choice(flags@) == Some(i as int),
            None => calendar_key_choice(flags@) is None,
        },
{
    let mut i: usize = 0;
    while i < flags.len()
        invariant
            i <= flags.len(),
            forall|j: int| 0 <= j < i ==> flags@[j] & PRIMARY_KEY_FLAG == 0,
        decreases flags.len() - i,
    {
        if flags[i] & PRIMARY_KEY_FLAG != 0 {
            proof {
                let k = choose|k: int|
                    0 <= k < flags@.len() && flags@[k] & PRIMARY_KEY_FLAG != 0 && forall|j: int|
                        0 <= j < k ==> flags@[j] & PRIMARY_KEY_FLAG == 0;
                assert(0 <= i < flags@.len() && flags@[i as int] & PRIMARY_KEY_FLAG != 0);
                if k < i {
                } else if k > i {
                    assert(flags@[i as int] & PRIMARY_KEY_FLAG == 0);
                }
            }
            return Some(i);
        }
        i = i + 1;
    }
    if flags.len() > 0 {
        Some(0)
    } else {
        None
    }
}

/// Which private key opens a key packet.
#[derive(Debug, Clone, Copy, PartialEq, Eq, Structural)]
pub enum KeyRole {
    /// The calendar's key.
    Calendar,
    /// The member address's key.
    Address,
}

/// The key packet of a group of cards and the key that opens it.
#[derive(Debug, Clone)]
pub struct GroupKey {
    pub packet: Option<String>,
    pub key: KeyRole,
}

/// The shared and attendee cards are opened with the shared key packet and
/// the calendar key, or, without one, with the address key packet and the
/// address key.
pub fn shared_group_key(raw: &RawEvent) -> (r: GroupKey)
    ensures
        match raw.shared_key_packet {
            Some(p) => r.packet == Some(p) && r.key == KeyRole::Calendar,
            None => match raw.address_key_packet {
                Some(p) => r.packet == Some(p) && r.key == KeyRole::Address,
                None => r.packet is None && r.key == KeyRole::Calendar,
            },
        },
{
    match &raw.shared_key_packet {
        Some(p) => GroupKey { packet: Some(p.clone()), key: KeyRole::Calendar },
        None => match &raw.address_key_packet {
            Some(p) => GroupKey { packet: Some(p.clone()), key: KeyRole::Address },
            None => GroupKey { packet: None, key: KeyRole::Calendar },
        },
    }
}

/// The calendar cards are opened with the calendar key packet, else the
/// shared one, and the calendar key.
pub fn calendar_group_key(raw: &RawEvent) -> (r: GroupKey)
    ensures
        r.key == KeyRole::Calendar,
        r.packet == match raw.calendar_key_packet {
            Some(p) => Some(p),
            None => raw.shared_key_packet,
        },
{
    match &raw.calendar_key_packet {
        Some(p) => GroupKey { packet: Some(p.clone()), key: KeyRole::Calendar },
        None => match &raw.shared_key_packet {
            Some(p) => GroupKey { packet: Some(p.clone()), key: KeyRole::Calendar },
            None => GroupKey { packet: None, key: KeyRole::Calendar },
        },
    }
}

/// The ID of the event a sync request created, from the reply: the first of
/// `Responses[0].Response.Event.ID`, `Responses[0].Response.Event.Id` and
/// `Responses[0].Event.ID` that is a text.
pub fn sync_event_id(response_id: Option<String>, response_lower_id: Option<String>, event_id: Option<
    String,
>) -> (r: Option<String>)
    ensures
        r == (if response_id is Some {
            response_id
        } else if response_lower_id is Some {
            response_lower_id
        } else {
            event_id
        }),
{
    match response_id {
        Some(id) => Some(id),
        None => match response_lower_id {
            Some(id) => Some(id),
            None => event_id,
        },
    }
}

/// Card kind: clear text.
pub const CLEAR_CARD: u8 = 0;

/// Card kind: encrypted.
pub const ENCRYPTED_CARD: u8 = 1;

/// Card kind: clear text with a signature.
pub const SIGNED_CARD: u8 = 2;

/// Card kind: encrypted, with a signature of the clear text.
pub const ENCRYPTED_SIGNED_CARD: u8 = 3;

/// Whether a card of this kind is encrypted.
pub fn payload_is_encrypted(kind: u8) -> (r: bool)
    ensures
        r == (kind == ENCRYPTED_CARD || kind == ENCRYPTED_SIGNED_CARD),
{
    kind == ENCRYPTED_CARD || kind == ENCRYPTED_SIGNED_CARD
}

/// Whether a card of this kind carries a signature to check.
pub fn payload_is_signed(kind: u8) -> (r: bool)
    ensures
        r == (kind == SIGNED_CARD || kind == ENCRYPTED_SIGNED_CARD),
{
    kind == SIGNED_CARD || kind == ENCRYPTED_SIGNED_CARD
}

/// Whether a group of cards needs its session key: when one of them is
/// encrypted.
pub fn group_needs_session_key(payloads: &Vec<EventPayload>) -> (r: bool)
    ensures
        r == exists|i: int|
            0 <= i < payloads@.len() && (payloads@[i].kind == ENCRYPTED_CARD || payloads@[i].kind
                == ENCRYPTED_SIGNED_CARD),
{
    let mut i: usize = 0;
    while i < payloads.len()
        invariant
            i <= payloads.len(),
            forall|j: int|
                0 <= j < i ==> !(payloads@[j].kind == ENCRYPTED_CARD || payloads@[j].kind
                    == ENCRYPTED_SIGNED_CARD),
        decreases payloads.len() - i,
    {
        if payload_is_encrypted(payloads[i].kind) {
            return true;
        }
        i = i + 1;
    }
    false
}

/// The permissions an event is written with when the server gave none.
pub const DEFAULT_PERMISSIONS: u32 = 63;

/// The permissions an updated event keeps: the server's, else the default.
pub fn event_permissions(raw: &RawEvent) -> (r: u32)
    ensures
        r == match raw.permissions {
            Some(p) => p,
            None => DEFAULT_PERMISSIONS,
        },
{
    match raw.permissions {
        Some(p) => p,
        None => DEFAULT_PERMISSIONS,
    }
}

/// Whether an updated event is marked as organised by the account: the
/// server's flag, else 1.
pub fn event_is_organizer(raw: &RawEvent) -> (r: u8)
    ensures
        r == match raw.is_organizer {
            Some(o) => o,
            None => 1u8,
        },
{
    match raw.is_organizer {
        Some(o) => o,
        None => 1,
    }
}

} // verus!
