//! The small slice of iCalendar text handling that the Proton cards need:
//! unfolding content lines, picking the properties of the first VEVENT, the
//! name of a property, and wrapping properties into a one-event calendar.
use vstd::prelude::*;

use crate::text::{
    ascii_upper, chars_equal_str, chars_of, contains_char, extend_chars, extend_str, has_prefix,
    starts_with_str, string_of, upper_chars,
};

verus! {

/// The text that opens every card this library writes.
pub const EVENT_HEADER: &'static str =
    "BEGIN:VCALENDAR\r\nVERSION:2.0\r\nPRODID:CALDIR-PROTON\r\nBEGIN:VEVENT\r\n";

/// The text that closes every card this library writes.
pub const EVENT_FOOTER: &'static str = "END:VEVENT\r\nEND:VCALENDAR\r\n";

/// The views of a sequence of strings.
pub open spec fn views(v: Seq<String>) -> Seq<Seq<char>> {
    v.map_values(|s: String| s@)
}

/// Every CR LF pair replaced by a single LF, scanning from the left
/// (`str::replace("\r\n", "\n")`).
pub open spec fn crlf_to_lf(s: Seq<char>) -> Seq<char>
    decreases s.len(),
{
    if s.len() == 0 {
        s
    } else if s.len() >= 2 && s[0] == '\r' && s[1] == '\n' {
        seq!['\n'] + crlf_to_lf(s.skip(2))
    } else {
        seq![s[0]] + crlf_to_lf(s.skip(1))
    }
}

/// The pieces between LF characters (`str::split('\n')`): one more piece than
/// there are LFs, empty pieces included.
pub open spec fn split_lines(s: Seq<char>) -> Seq<Seq<char>>
    decreases s.len(),
{
    if s.len() == 0 {
        seq![Seq::<char>::empty()]
    } else {
        let rest = split_lines(s.skip(1));
        if s[0] == '\n' {
            seq![Seq::<char>::empty()] + rest
        } else {
            rest.update(0, seq![s[0]] + rest[0])
        }
    }
}

/// Adds one raw line to the logical lines read so far: a line that begins
/// with a space or a tab continues the previous logical line (without its
/// first character), an empty line is dropped, any other line starts a new
/// logical line.
pub open spec fn unfold_step(acc: Seq<Seq<char>>, raw: Seq<char>) -> Seq<Seq<char>> {
    if raw.len() > 0 && (raw[0] == ' ' || raw[0] == '\t') {
        if acc.len() > 0 {
            acc.update(acc.len() - 1, acc.last() + raw.skip(1))
        } else {
            acc
        }
    } else if raw.len() > 0 {
        acc.push(raw)
    } else {
        acc
    }
}

/// The logical lines made of a sequence of raw lines.
pub open spec fn unfold_all(raws: Seq<Seq<char>>) -> Seq<Seq<char>>
    decreases raws.len(),
{
    if raws.len() == 0 {
        Seq::empty()
    } else {
        unfold_step(unfold_all(raws.drop_last()), raws.last())
    }
}

/// The logical (unfolded) content lines of an iCalendar text.
pub open spec fn logical_lines(ics: Seq<char>) -> Seq<Seq<char>> {
    unfold_all(split_lines(crlf_to_lf(ics)))
}

/// The state of a scan for the properties of the first VEVENT: inside the
/// event, depth of nested components, finished, properties found.
pub type ScanState = (bool, nat, bool, Seq<Seq<char>>);

/// One logical line of the scan. `BEGIN:VEVENT` (any case) enters the event
/// and `END:VEVENT` ends the scan; inside the event, other `BEGIN:`/`END:`
/// lines track nested components (VALARM, ...), and a line with a `:` at
/// depth 0 is a property of the event.
pub open spec fn scan_step(st: ScanState, line: Seq<char>) -> ScanState {
    let up = ascii_upper(line);
    if st.2 {
        st
    } else if up == "BEGIN:VEVENT"@ {
        (true, st.1, false, st.3)
    } else if up == "END:VEVENT"@ {
        (st.0, st.1, true, st.3)
    } else if !st.0 {
        st
    } else if has_prefix(up, "BEGIN:"@) {
        (st.0, st.1 + 1, false, st.3)
    } else if has_prefix(up, "END:"@) && st.1 > 0 {
        (st.0, (st.1 - 1) as nat, false, st.3)
    } else if st.1 == 0 && line.contains(':') {
        (st.0, st.1, false, st.3.push(line))
    } else {
        st
    }
}

/// The scan over a sequence of logical lines.
pub open spec fn scan_all(lines: Seq<Seq<char>>) -> ScanState
    decreases lines.len(),
{
    if lines.len() == 0 {
        (false, 0nat, false, Seq::empty())
    } else {
        scan_step(scan_all(lines.drop_last()), lines.last())
    }
}

/// The property lines of the first VEVENT of an iCalendar text, in order,
/// without the lines of nested components.
pub open spec fn event_properties(ics: Seq<char>) -> Seq<Seq<char>> {
    scan_all(logical_lines(ics)).3
}

/// The index of the first `;` or `:` of a line, or its length.
pub open spec fn name_end(line: Seq<char>) -> int
    decreases line.len(),
{
    if line.len() == 0 {
        0
    } else if line[0] == ';' || line[0] == ':' {
        0
    } else {
        1 + name_end(line.skip(1))
    }
}

/// The upper-cased name of a content line: what comes before its first `;`
/// or `:`.
pub open spec fn property_name_of(line: Seq<char>) -> Seq<char> {
    ascii_upper(line.take(name_end(line)))
}

/// Lines each followed by CR LF.
pub open spec fn crlf_lines(lines: Seq<Seq<char>>) -> Seq<char>
    decreases lines.len(),
{
    if lines.len() == 0 {
        Seq::empty()
    } else {
        crlf_lines(lines.drop_last()) + lines.last() + seq!['\r', '\n']
    }
}

/// A one-event calendar holding the given property lines.
pub open spec fn wrapped_event(lines: Seq<Seq<char>>) -> Seq<char> {
    EVENT_HEADER@ + crlf_lines(lines) + EVENT_FOOTER@
}

proof fn lemma_name_end_bounds(line: Seq<char>)
    ensures
        0 <= name_end(line) <= line.len(),
        forall|j: int| 0 <= j < name_end(line) ==> line[j] != ';' && line[j] != ':',
        name_end(line) < line.len() ==> (line[name_end(line)] == ';' || line[name_end(
            line,
        )] == ':'),
    decreases line.len(),
{
    if line.len() > 0 && !(line[0] == ';' || line[0] == ':') {
        lemma_name_end_bounds(line.skip(1));
        assert forall|j: int| 0 <= j < name_end(line) implies line[j] != ';' && line[j] != ':' by {
            if j > 0 {
                assert(line[j] == line.skip(1)[j - 1]);
            }
        }
    }
}

proof fn lemma_name_end_found(line: Seq<char>, k: int)
    requires
        0 <= k <= line.len(),
        forall|j: int| 0 <= j < k ==> line[j] != ';' && line[j] != ':',
        k < line.len() ==> (line[k] == ';' || line[k] == ':'),
    ensures
        name_end(line) == k,
    decreases line.len(),
{
    if k > 0 {
        lemma_name_end_found(line.skip(1), k - 1);
    }
}

proof fn lemma_split_lines_nonempty(s: Seq<char>)
    ensures
        split_lines(s).len() > 0,
    decreases s.len(),
{
    if s.len() > 0 {
        lemma_split_lines_nonempty(s.skip(1));
    }
}

/// [`crlf_to_lf`] of a text.
fn normalize_newlines(s: &Vec<char>) -> (r: Vec<char>)
    ensures
        r@ == crlf_to_lf(s@),
{
    let mut r: Vec<char> = Vec::new();
    let mut i: usize = 0;
    assert(s@.skip(0) =~= s@);
    while i < s.len()
        invariant
            i <= s.len(),
            r@ + crlf_to_lf(s@.skip(i as int)) == crlf_to_lf(s@),
        decreases s.len() - i,
    {
        let ghost rest = s@.skip(i as int);
        if i + 1 < s.len() && s[i] == '\r' && s[i + 1] == '\n' {
            assert(rest.skip(2) =~= s@.skip(i + 2));
            r.push('\n');
            i = i + 2;
            assert(r@ + crlf_to_lf(s@.skip(i as int)) =~= crlf_to_lf(s@));
        } else {
            assert(rest.skip(1) =~= s@.skip(i + 1));
            r.push(s[i]);
            i = i + 1;
            assert(r@ + crlf_to_lf(s@.skip(i as int)) =~= crlf_to_lf(s@));
        }
    }
    assert(s@.skip(s.len() as int) =~= Seq::<char>::empty());
    assert(r@ + Seq::<char>::empty() =~= r@);
    r
}

/// [`split_lines`] of a text.
fn split_on_newlines(s: &Vec<char>) -> (r: Vec<Vec<char>>)
    ensures
        r@.map_values(|v: Vec<char>| v@) == split_lines(s@),
{
    let mut done: Vec<Vec<char>> = Vec::new();
    let mut cur: Vec<char> = Vec::new();
    let mut i: usize = 0;
    proof {
        lemma_split_lines_nonempty(s@);
        assert(s@.skip(0) =~= s@);
        assert(done@.map_values(|v: Vec<char>| v@) =~= Seq::<Seq<char>>::empty());
        assert(cur@ + split_lines(s@)[0] =~= split_lines(s@)[0]);
        assert(split_lines(s@) =~= seq![split_lines(s@)[0]] + split_lines(s@).skip(1));
    }
    while i < s.len()
        invariant
            i <= s.len(),
            split_lines(s@.skip(i as int)).len() > 0,
            split_lines(s@) == done@.map_values(|v: Vec<char>| v@) + seq![
                cur@ + split_lines(s@.skip(i as int))[0],
            ] + split_lines(s@.skip(i as int)).skip(1),
        decreases s.len() - i,
    {
        let ghost rest = s@.skip(i as int);
        let ghost tail = split_lines(rest.skip(1));
        proof {
            lemma_split_lines_nonempty(rest.skip(1));
            assert(rest.skip(1) =~= s@.skip(i + 1));
        }
        if s[i] == '\n' {
            let ghost old_done = done@.map_values(|v: Vec<char>| v@);
            let ghost old_cur = cur@;
            let finished = cur;
            done.push(finished);
            cur = Vec::new();
            i = i + 1;
            assert(split_lines(rest) == seq![Seq::<char>::empty()] + tail);
            assert(done@.map_values(|v: Vec<char>| v@) =~= old_done.push(old_cur));
            assert(split_lines(s@) =~= done@.map_values(|v: Vec<char>| v@) + seq![
                cur@ + split_lines(s@.skip(i as int))[0],
            ] + split_lines(s@.skip(i as int)).skip(1));
        } else {
            let ghost old_cur = cur@;
            cur.push(s[i]);
            i = i + 1;
            assert(split_lines(rest) == tail.update(0, seq![s@[i - 1]] + tail[0]));
            assert(cur@ + tail[0] =~= old_cur + (seq![s@[i - 1]] + tail[0]));
            assert(tail.skip(1) =~= tail.update(0, seq![s@[i - 1]] + tail[0]).skip(1));
        }
    }
    assert(s@.skip(s.len() as int) =~= Seq::<char>::empty());
    assert(split_lines(Seq::<char>::empty()) =~= seq![Seq::<char>::empty()]);
    let ghost before = done@.map_values(|v: Vec<char>| v@);
    let ghost last = cur@;
    done.push(cur);
    assert(done@.map_values(|v: Vec<char>| v@) =~= before.push(last));
    assert(last + Seq::<char>::empty() =~= last);
    done
}

/// The strings holding the given character vectors.
pub fn strings_of(v: &Vec<Vec<char>>) -> (r: Vec<String>)
    ensures
        views(r@) == v@.map_values(|c: Vec<char>| c@),
{
    let mut r: Vec<String> = Vec::new();
    let mut i: usize = 0;
    while i < v.len()
        invariant
            i <= v.len(),
            views(r@) == v@.take(i as int).map_values(|c: Vec<char>| c@),
        decreases v.len() - i,
    {
        let s = string_of(&v[i]);
        let ghost before = views(r@);
        r.push(s);
        assert(views(r@) =~= before.push(v@[i as int]@));
        assert(v@.take(i + 1).map_values(|c: Vec<char>| c@) =~= v@.take(i as int).map_values(
            |c: Vec<char>| c@,
        ).push(v@[i as int]@));
        i = i + 1;
    }
    assert(v@.take(v.len() as int) =~= v@);
    r
}

/// The logical lines of an iCalendar text, as character vectors.
fn logical_line_chars(ics: &str) -> (r: Vec<Vec<char>>)
    ensures
        r@.map_values(|v: Vec<char>| v@) == logical_lines(ics@),
{
    let chars = chars_of(ics);
    let normalized = normalize_newlines(&chars);
    let raws = split_on_newlines(&normalized);
    let ghost raw_views = raws@.map_values(|v: Vec<char>| v@);
    let mut acc: Vec<Vec<char>> = Vec::new();
    let mut i: usize = 0;
    while i < raws.len()
        invariant
            i <= raws.len(),
            raw_views == raws@.map_values(|v: Vec<char>| v@),
            acc@.map_values(|v: Vec<char>| v@) == unfold_all(raw_views.take(i as int)),
        decreases raws.len() - i,
    {
        let raw = &raws[i];
        let ghost before = acc@.map_values(|v: Vec<char>| v@);
        assert(raw_views.take(i + 1).drop_last() =~= raw_views.take(i as int));
        assert(raw_views.take(i + 1).last() == raw@);
        if raw.len() > 0 && (raw[0] == ' ' || raw[0] == '\t') {
            if acc.len() > 0 {
                let k = acc.len() - 1;
                let mut last = acc.pop().unwrap();
                let mut j: usize = 1;
                let ghost start = last@;
                while j < raw.len()
                    invariant
                        1 <= j <= raw.len(),
                        last@ == start + raw@.subrange(1, j as int),
                    decreases raw.len() - j,
                {
                    last.push(raw[j]);
                    j = j + 1;
                    assert(last@ =~= start + raw@.subrange(1, j as int));
                }
                acc.push(last);
                assert(raw@.subrange(1, raw.len() as int) =~= raw@.skip(1));
                assert(acc@.map_values(|v: Vec<char>| v@) =~= before.update(
                    k as int,
                    before.last() + raw@.skip(1),
                ));
            }
        } else if raw.len() > 0 {
            let copy = raw.clone();
            assert(copy@ == raw@);
            acc.push(copy);
            assert(acc@.map_values(|v: Vec<char>| v@) =~= before.push(raw@));
        }
        i = i + 1;
    }
    assert(raw_views.take(raws.len() as int) =~= raw_views);
    acc
}

/// The logical (unfolded) content lines of an iCalendar text: CR LF becomes
/// LF, continuation lines that begin with a space or tab are joined to the
/// line before them, and empty lines are dropped.
pub fn unfold_lines(ics: &str) -> (r: Vec<String>)
    ensures
        views(r@) == logical_lines(ics@),
{
    let lines = logical_line_chars(ics);
    strings_of(&lines)
}

/// The property lines of the first VEVENT of an iCalendar text, in order,
/// without the lines of nested components such as VALARM.
pub fn extract_event_properties(ics: &str) -> (r: Vec<String>)
    ensures
        views(r@) == event_properties(ics@),
{
    let lines = logical_line_chars(ics);
    let ghost line_views = lines@.map_values(|v: Vec<char>| v@);
    let mut in_event = false;
    let mut nested: usize = 0;
    let mut found: Vec<Vec<char>> = Vec::new();
    let mut i: usize = 0;
    while i < lines.len()
        invariant
            i <= lines.len(),
            nested <= i,
            line_views == lines@.map_values(|v: Vec<char>| v@),
            line_views == logical_lines(ics@),
            scan_all(line_views.take(i as int)) == (
                in_event,
                nested as nat,
                false,
                found@.map_values(|v: Vec<char>| v@),
            ),
        decreases lines.len() - i,
    {
        let line = &lines[i];
        let ghost before = found@.map_values(|v: Vec<char>| v@);
        assert(line_views.take(i + 1).drop_last() =~= line_views.take(i as int));
        assert(line_views.take(i + 1).last() == line@);
        let upper = upper_chars(line);
        if chars_equal_str(&upper, "BEGIN:VEVENT") {
            in_event = true;
        } else if chars_equal_str(&upper, "END:VEVENT") {
            proof {
                lemma_scan_finished(line_views, i as int + 1);
            }
            assert(line_views.take(lines.len() as int) =~= line_views);
            return strings_of(&found);
        } else if !in_event {
        } else if starts_with_str(&upper, "BEGIN:") {
            nested = nested + 1;
        } else if starts_with_str(&upper, "END:") && nested > 0 {
            nested = nested - 1;
        } else if nested == 0 && contains_char(line, ':') {
            let copy = line.clone();
            found.push(copy);
            assert(found@.map_values(|v: Vec<char>| v@) =~= before.push(line@));
        }
        i = i + 1;
    }
    assert(line_views.take(lines.len() as int) =~= line_views);
    strings_of(&found)
}

/// Once the scan has finished it keeps its result.
proof fn lemma_scan_finished(lines: Seq<Seq<char>>, k: int)
    requires
        0 <= k <= lines.len(),
        scan_all(lines.take(k)).2,
    ensures
        scan_all(lines) == scan_all(lines.take(k)),
    decreases lines.len() - k,
{
    if k < lines.len() {
        assert(lines.take(k + 1).drop_last() =~= lines.take(k));
        lemma_scan_finished(lines, k + 1);
    } else {
        assert(lines.take(k) =~= lines);
    }
}

/// The upper-cased name of a content line: what comes before its first `;`
/// or `:`.
pub fn property_name(line: &str) -> (r: String)
    ensures
        r@ == property_name_of(line@),
{
    let chars = chars_of(line);
    let mut k: usize = 0;
    while k < chars.len() && chars[k] != ';' && chars[k] != ':'
        invariant
            k <= chars.len(),
            forall|j: int| 0 <= j < k ==> chars@[j] != ';' && chars@[j] != ':',
        decreases chars.len() - k,
    {
        k = k + 1;
    }
    proof {
        lemma_name_end_found(chars@, k as int);
    }
    let mut name: Vec<char> = Vec::new();
    let mut j: usize = 0;
    while j < k
        invariant
            j <= k <= chars.len(),
            name@ == chars@.take(j as int),
        decreases k - j,
    {
        name.push(chars[j]);
        j = j + 1;
        assert(name@ =~= chars@.take(j as int));
    }
    let upper = upper_chars(&name);
    string_of(&upper)
}

/// Appends each line followed by CR LF.
fn push_crlf_lines(out: &mut Vec<char>, lines: &Vec<String>)
    ensures
        final(out)@ == old(out)@ + crlf_lines(views(lines@)),
{
    let mut i: usize = 0;
    while i < lines.len()
        invariant
            i <= lines.len(),
            out@ == old(out)@ + crlf_lines(views(lines@).take(i as int)),
        decreases lines.len() - i,
    {
        let ghost before = out@;
        extend_str(out, lines[i].as_str());
        out.push('\r');
        out.push('\n');
        i = i + 1;
        assert(views(lines@).take(i as int).drop_last() =~= views(lines@).take(i - 1));
        assert(out@ =~= before + lines@[i - 1]@ + seq!['\r', '\n']);
    }
    assert(views(lines@).take(lines.len() as int) =~= views(lines@));
}

/// A one-event calendar holding the given property lines (see
/// [`wrapped_event`]).
pub fn wrap_event(properties: &Vec<String>) -> (r: String)
    ensures
        r@ == wrapped_event(views(properties@)),
{
    let mut out: Vec<char> = Vec::new();
    extend_str(&mut out, EVENT_HEADER);
    push_crlf_lines(&mut out, properties);
    extend_str(&mut out, EVENT_FOOTER);
    string_of(&out)
}

/// A line that reads back as itself: not empty, without CR or LF, and not
/// starting with a space or a tab (which would make it a continuation).
pub open spec fn is_single_line(line: Seq<char>) -> bool {
    &&& line.len() > 0
    &&& forall|i: int| 0 <= i < line.len() ==> line[i] != '\r' && line[i] != '\n'
    &&& line[0] != ' ' && line[0] != '\t'
}

/// A property line that a card carries unchanged: a single line with a `:`
/// that neither opens nor closes a component.
pub open spec fn is_plain_property(line: Seq<char>) -> bool {
    &&& is_single_line(line)
    &&& line.contains(':')
    &&& !has_prefix(ascii_upper(line), "BEGIN:"@)
    &&& !has_prefix(ascii_upper(line), "END:"@)
}

/// Lines each followed by LF.
spec fn lf_lines(lines: Seq<Seq<char>>) -> Seq<char>
    decreases lines.len(),
{
    if lines.len() == 0 {
        Seq::empty()
    } else {
        lf_lines(lines.drop_last()) + lines.last() + seq!['\n']
    }
}

proof fn lemma_crlf_lines_append(a: Seq<Seq<char>>, b: Seq<Seq<char>>)
    ensures
        crlf_lines(a + b) == crlf_lines(a) + crlf_lines(b),
    decreases b.len(),
{
    if b.len() == 0 {
        assert(a + b =~= a);
    } else {
        lemma_crlf_lines_append(a, b.drop_last());
        assert((a + b).drop_last() =~= a + b.drop_last());
        assert((a + b).last() == b.last());
    }
}

proof fn lemma_crlf_to_lf_append(x: Seq<char>, y: Seq<char>)
    requires
        x.len() == 0 || x.last() != '\r',
    ensures
        crlf_to_lf(x + y) == crlf_to_lf(x) + crlf_to_lf(y),
    decreases x.len(),
{
    if x.len() == 0 {
        assert(x + y =~= y);
    } else if x.len() >= 2 && x[0] == '\r' && x[1] == '\n' {
        lemma_crlf_to_lf_append(x.skip(2), y);
        assert((x + y).skip(2) =~= x.skip(2) + y);
    } else if x.len() == 1 {
        assert((x + y).skip(1) =~= y);
        assert(x.skip(1) =~= Seq::<char>::empty());
    } else {
        lemma_crlf_to_lf_append(x.skip(1), y);
        assert((x + y).skip(1) =~= x.skip(1) + y);
    }
}

proof fn lemma_crlf_to_lf_plain(x: Seq<char>)
    requires
        forall|i: int| 0 <= i < x.len() ==> x[i] != '\r',
    ensures
        crlf_to_lf(x) == x,
    decreases x.len(),
{
    if x.len() > 0 {
        lemma_crlf_to_lf_plain(x.skip(1));
        assert(seq![x[0]] + x.skip(1) =~= x);
    }
}

proof fn lemma_crlf_to_lf_lines(lines: Seq<Seq<char>>)
    requires
        forall|i: int| 0 <= i < lines.len() ==> is_single_line(#[trigger] lines[i]),
    ensures
        crlf_to_lf(crlf_lines(lines)) == lf_lines(lines),
    decreases lines.len(),
{
    if lines.len() > 0 {
        let init = lines.drop_last();
        let last = lines.last();
        assert(is_single_line(lines[lines.len() - 1]));
        lemma_crlf_to_lf_lines(init);
        let head = crlf_lines(init);
        if head.len() > 0 {
            if init.len() == 0 {
                assert(head =~= Seq::<char>::empty());
            }
            assert(head.last() == '\n');
        }
        assert(crlf_lines(lines) =~= head + (last + seq!['\r', '\n']));
        lemma_crlf_to_lf_append(head, last + seq!['\r', '\n']);
        lemma_crlf_to_lf_append(last, seq!['\r', '\n']);
        lemma_crlf_to_lf_plain(last);
        let crlf = seq!['\r', '\n'];
        assert(crlf[0] == '\r' && crlf[1] == '\n');
        assert(crlf.skip(2) =~= Seq::<char>::empty());
        assert(crlf_to_lf(crlf.skip(2)) =~= Seq::<char>::empty());
        assert(crlf_to_lf(crlf) =~= seq!['\n'] + crlf_to_lf(crlf.skip(2)));
        assert(crlf_to_lf(crlf) =~= seq!['\n']);
        assert(lf_lines(lines) =~= lf_lines(init) + last + seq!['\n']);
    }
}

proof fn lemma_split_lines_append(x: Seq<char>, y: Seq<char>)
    ensures
        split_lines(x + seq!['\n'] + y) == split_lines(x) + split_lines(y),
    decreases x.len(),
{
    let s = x + seq!['\n'] + y;
    if x.len() == 0 {
        assert(s.skip(1) =~= y);
        assert(s[0] == '\n');
        assert(split_lines(x) =~= seq![Seq::<char>::empty()]);
    } else {
        lemma_split_lines_append(x.skip(1), y);
        assert(s.skip(1) =~= x.skip(1) + seq!['\n'] + y);
        lemma_split_lines_nonempty(x.skip(1));
        lemma_split_lines_nonempty(y);
        let rest = split_lines(s.skip(1));
        if x[0] == '\n' {
            assert(split_lines(s) =~= seq![Seq::<char>::empty()] + rest);
        } else {
            assert(rest =~= split_lines(x.skip(1)) + split_lines(y));
            assert(split_lines(s) =~= rest.update(0, seq![s[0]] + rest[0]));
            assert(split_lines(x) =~= split_lines(x.skip(1)).update(
                0,
                seq![x[0]] + split_lines(x.skip(1))[0],
            ));
            assert(split_lines(s) =~= split_lines(x) + split_lines(y));
        }
    }
}

proof fn lemma_split_lines_single(x: Seq<char>)
    requires
        forall|i: int| 0 <= i < x.len() ==> x[i] != '\n',
    ensures
        split_lines(x) == seq![x],
    decreases x.len(),
{
    if x.len() > 0 {
        lemma_split_lines_single(x.skip(1));
        assert(seq![x[0]] + x.skip(1) =~= x);
        let rest = split_lines(x.skip(1));
        assert(rest == seq![x.skip(1)]);
        assert(x[0] != '\n');
        assert(split_lines(x) == rest.update(0, seq![x[0]] + rest[0]));
        assert(split_lines(x) =~= seq![x]);
    } else {
        assert(x =~= Seq::<char>::empty());
    }
}

proof fn lemma_split_lf_lines(lines: Seq<Seq<char>>, t: Seq<char>)
    requires
        forall|i: int| 0 <= i < lines.len() ==> is_single_line(#[trigger] lines[i]),
    ensures
        split_lines(lf_lines(lines) + t) == lines + split_lines(t),
    decreases lines.len(),
{
    if lines.len() == 0 {
        assert(lf_lines(lines) + t =~= t);
        assert(lines + split_lines(t) =~= split_lines(t));
    } else {
        let init = lines.drop_last();
        let last = lines.last();
        assert(is_single_line(lines[lines.len() - 1]));
        assert(lf_lines(lines) + t =~= lf_lines(init) + (last + seq!['\n'] + t));
        lemma_split_lf_lines(init, last + seq!['\n'] + t);
        lemma_split_lines_append(last, t);
        lemma_split_lines_single(last);
        assert(init + (seq![last] + split_lines(t)) =~= lines + split_lines(t));
    }
}

proof fn lemma_unfold_single_lines(lines: Seq<Seq<char>>)
    requires
        forall|i: int| 0 <= i < lines.len() ==> is_single_line(#[trigger] lines[i]),
    ensures
        unfold_all(lines) == lines,
    decreases lines.len(),
{
    if lines.len() > 0 {
        assert(is_single_line(lines[lines.len() - 1]));
        lemma_unfold_single_lines(lines.drop_last());
        assert(lines.drop_last().push(lines.last()) =~= lines);
    }
}

/// The scan from a given state over a sequence of logical lines.
spec fn scan_from(st: ScanState, lines: Seq<Seq<char>>) -> ScanState
    decreases lines.len(),
{
    if lines.len() == 0 {
        st
    } else {
        scan_step(scan_from(st, lines.drop_last()), lines.last())
    }
}

/// The state a scan starts in.
spec fn scan_start() -> ScanState {
    (false, 0nat, false, Seq::empty())
}

proof fn lemma_scan_all_from(lines: Seq<Seq<char>>)
    ensures
        scan_all(lines) == scan_from(scan_start(), lines),
    decreases lines.len(),
{
    if lines.len() > 0 {
        lemma_scan_all_from(lines.drop_last());
    }
}

proof fn lemma_scan_from_append(st: ScanState, a: Seq<Seq<char>>, b: Seq<Seq<char>>)
    ensures
        scan_from(st, a + b) == scan_from(scan_from(st, a), b),
    decreases b.len(),
{
    if b.len() == 0 {
        assert(a + b =~= a);
    } else {
        lemma_scan_from_append(st, a, b.drop_last());
        assert((a + b).drop_last() =~= a + b.drop_last());
        assert((a + b).last() == b.last());
    }
}

proof fn lemma_scan_plain(found: Seq<Seq<char>>, lines: Seq<Seq<char>>)
    requires
        forall|i: int| 0 <= i < lines.len() ==> is_plain_property(#[trigger] lines[i]),
    ensures
        scan_from((true, 0nat, false, found), lines) == (true, 0nat, false, found + lines),
    decreases lines.len(),
{
    if lines.len() == 0 {
        assert(found + lines =~= found);
    } else {
        let init = lines.drop_last();
        let line = lines.last();
        assert(is_plain_property(lines[lines.len() - 1]));
        lemma_scan_plain(found, init);
        reveal_strlit("BEGIN:VEVENT");
        reveal_strlit("END:VEVENT");
        reveal_strlit("BEGIN:");
        reveal_strlit("END:");
        let up = ascii_upper(line);
        assert("BEGIN:VEVENT"@.take(6) =~= "BEGIN:"@);
        assert("END:VEVENT"@.take(4) =~= "END:"@);
        assert(up != "BEGIN:VEVENT"@);
        assert(up != "END:VEVENT"@);
        assert((found + init).push(line) =~= found + lines);
    }
}

/// The lines of [`EVENT_HEADER`].
spec fn header_lines() -> Seq<Seq<char>> {
    seq!["BEGIN:VCALENDAR"@, "VERSION:2.0"@, "PRODID:CALDIR-PROTON"@, "BEGIN:VEVENT"@]
}

/// The lines of [`EVENT_FOOTER`].
spec fn footer_lines() -> Seq<Seq<char>> {
    seq!["END:VEVENT"@, "END:VCALENDAR"@]
}

proof fn lemma_crlf_lines_one(line: Seq<char>)
    ensures
        crlf_lines(seq![line]) == line + seq!['\r', '\n'],
{
    let one = seq![line];
    assert(one.drop_last() =~= Seq::<Seq<char>>::empty());
    assert(one.last() == line);
    assert(crlf_lines(one.drop_last()) =~= Seq::<char>::empty());
    assert(crlf_lines(one) =~= line + seq!['\r', '\n']);
}

proof fn lemma_header_and_footer()
    ensures
        EVENT_HEADER@ == crlf_lines(header_lines()),
        EVENT_FOOTER@ == crlf_lines(footer_lines()),
        forall|i: int| 0 <= i < header_lines().len() ==> is_single_line(#[trigger] header_lines()[i]),
        forall|i: int| 0 <= i < footer_lines().len() ==> is_single_line(#[trigger] footer_lines()[i]),
        scan_from(scan_start(), header_lines()) == (true, 0nat, false, Seq::<Seq<char>>::empty()),
        forall|found: Seq<Seq<char>>|
            #[trigger] scan_from((true, 0nat, false, found), footer_lines()) == (
                true,
                0nat,
                true,
                found,
            ),
{
    reveal_strlit("BEGIN:VCALENDAR\r\nVERSION:2.0\r\nPRODID:CALDIR-PROTON\r\nBEGIN:VEVENT\r\n");
    reveal_strlit("END:VEVENT\r\nEND:VCALENDAR\r\n");
    reveal_strlit("BEGIN:VCALENDAR");
    reveal_strlit("VERSION:2.0");
    reveal_strlit("PRODID:CALDIR-PROTON");
    reveal_strlit("BEGIN:VEVENT");
    reveal_strlit("END:VEVENT");
    reveal_strlit("END:VCALENDAR");
    let h0 = "BEGIN:VCALENDAR"@;
    let h1 = "VERSION:2.0"@;
    let h2 = "PRODID:CALDIR-PROTON"@;
    let h3 = "BEGIN:VEVENT"@;
    let f0 = "END:VEVENT"@;
    let f1 = "END:VCALENDAR"@;
    let crlf = seq!['\r', '\n'];
    let h = header_lines();
    let f = footer_lines();
    assert(h =~= seq![h0] + seq![h1] + seq![h2] + seq![h3]);
    assert(f =~= seq![f0] + seq![f1]);
    lemma_crlf_lines_one(h0);
    lemma_crlf_lines_one(h1);
    lemma_crlf_lines_one(h2);
    lemma_crlf_lines_one(h3);
    lemma_crlf_lines_one(f0);
    lemma_crlf_lines_one(f1);
    lemma_crlf_lines_append(seq![h0], seq![h1]);
    lemma_crlf_lines_append(seq![h0] + seq![h1], seq![h2]);
    lemma_crlf_lines_append(seq![h0] + seq![h1] + seq![h2], seq![h3]);
    lemma_crlf_lines_append(seq![f0], seq![f1]);
    assert(EVENT_HEADER@ =~= h0 + crlf + h1 + crlf + h2 + crlf + h3 + crlf);
    assert(EVENT_FOOTER@ =~= f0 + crlf + f1 + crlf);
    assert(crlf_lines(h) =~= h0 + crlf + h1 + crlf + h2 + crlf + h3 + crlf);
    assert(crlf_lines(f) =~= f0 + crlf + f1 + crlf);
    assert(is_single_line(h0) && is_single_line(h1) && is_single_line(h2) && is_single_line(h3));
    assert(is_single_line(f0) && is_single_line(f1));
    assert(ascii_upper(h0) =~= h0);
    assert(ascii_upper(h1) =~= h1);
    assert(ascii_upper(h2) =~= h2);
    assert(ascii_upper(h3) =~= h3);
    assert(ascii_upper(f0) =~= f0);
    assert(h0 != h3 && h0 != f0);
    assert(h1 != h3 && h1 != f0);
    assert(h2 != h3 && h2 != f0);
    let s0 = scan_start();
    assert(h.drop_last().drop_last().drop_last().drop_last() =~= Seq::<Seq<char>>::empty());
    assert(h.drop_last().drop_last().drop_last() =~= seq![h0]);
    assert(h.drop_last().drop_last() =~= seq![h0, h1]);
    assert(h.drop_last() =~= seq![h0, h1, h2]);
    assert(seq![h0].drop_last() =~= Seq::<Seq<char>>::empty());
    assert(seq![h0].last() == h0);
    assert(scan_from(s0, Seq::<Seq<char>>::empty()) == s0);
    assert(scan_step(s0, h0) == s0);
    assert(scan_from(s0, seq![h0]) == s0);
    assert(seq![h0, h1].drop_last() =~= seq![h0]);
    assert(seq![h0, h1, h2].drop_last() =~= seq![h0, h1]);
    assert(scan_from(s0, seq![h0, h1]) == s0);
    assert(scan_from(s0, seq![h0, h1, h2]) == s0);
    assert(scan_from(s0, h) == (true, 0nat, false, Seq::<Seq<char>>::empty()));
    assert forall|found: Seq<Seq<char>>|
        #[trigger] scan_from((true, 0nat, false, found), f) == (true, 0nat, true, found) by {
        let st = (true, 0nat, false, found);
        assert(f.drop_last() =~= seq![f0]);
        assert(f.drop_last().drop_last() =~= Seq::<Seq<char>>::empty());
        assert(f.last() == f1);
        assert(f.drop_last().last() == f0);
        assert(scan_from(st, Seq::<Seq<char>>::empty()) == st);
        assert(scan_step(st, f0) == (true, 0nat, true, found));
        assert(scan_from(st, seq![f0]) == (true, 0nat, true, found));
    }
}

/// A card holds exactly the property lines it was written with: the
/// properties of the one-event calendar that wraps plain property lines are
/// those lines, in order.
pub proof fn lemma_wrapped_event_reads_back(lines: Seq<Seq<char>>)
    requires
        forall|i: int| 0 <= i < lines.len() ==> is_plain_property(#[trigger] lines[i]),
    ensures
        event_properties(wrapped_event(lines)) == lines,
{
    lemma_header_and_footer();
    let h = header_lines();
    let f = footer_lines();
    let all = h + lines + f;
    lemma_crlf_lines_append(h, lines);
    lemma_crlf_lines_append(h + lines, f);
    assert(wrapped_event(lines) == crlf_lines(all));
    assert forall|i: int| 0 <= i < all.len() implies is_single_line(#[trigger] all[i]) by {
        if i < h.len() {
            assert(all[i] == h[i]);
        } else if i < h.len() + lines.len() {
            assert(all[i] == lines[i - h.len()]);
        } else {
            assert(all[i] == f[i - h.len() - lines.len()]);
        }
    }
    lemma_crlf_to_lf_lines(all);
    lemma_split_lf_lines(all, Seq::empty());
    assert(lf_lines(all) + Seq::<char>::empty() =~= lf_lines(all));
    assert(split_lines(Seq::<char>::empty()) == seq![Seq::<char>::empty()]);
    let raws = all + seq![Seq::<char>::empty()];
    assert(raws.drop_last() =~= all);
    lemma_unfold_single_lines(all);
    assert(unfold_all(raws) == all);
    assert(logical_lines(wrapped_event(lines)) == all);
    lemma_scan_all_from(all);
    lemma_scan_from_append(scan_start(), h + lines, f);
    lemma_scan_from_append(scan_start(), h, lines);
    lemma_scan_plain(Seq::empty(), lines);
    assert(Seq::<Seq<char>>::empty() + lines =~= lines);
}

} // verus!
