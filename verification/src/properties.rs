//! An ordered table of iCalendar properties keyed by property name: each name
//! holds one or more content lines, and names are kept in ascending order, so
//! that the event text lists its properties by name.
use vstd::prelude::*;

verus! {

/// Lexicographic order of texts, character by character. On `String`s this
/// is the order `Ord` gives, since UTF-8 keeps the order of code points.
pub open spec fn text_lt(a: Seq<char>, b: Seq<char>) -> bool
    decreases a.len(),
{
    if a.len() == 0 {
        b.len() > 0
    } else if b.len() == 0 {
        false
    } else if a[0] != b[0] {
        a[0] < b[0]
    } else {
        text_lt(a.skip(1), b.skip(1))
    }
}

/// One property name and its content lines.
pub type Entry = (Seq<char>, Seq<Seq<char>>);

/// Names are strictly ascending.
pub open spec fn names_ascending(es: Seq<Entry>) -> bool {
    forall|i: int, j: int| 0 <= i < j < es.len() ==> text_lt(es[i].0, es[j].0)
}

/// Sets the lines of `name`: replaces the entry of that name, or inserts a
/// new entry before the first name that is greater.
pub open spec fn put(es: Seq<Entry>, name: Seq<char>, lines: Seq<Seq<char>>) -> Seq<Entry>
    decreases es.len(),
{
    if es.len() == 0 {
        seq![(name, lines)]
    } else if es[0].0 == name {
        seq![(name, lines)] + es.skip(1)
    } else if text_lt(name, es[0].0) {
        seq![(name, lines)] + es
    } else {
        seq![es[0]] + put(es.skip(1), name, lines)
    }
}

/// The lines held under `name`, if any.
pub open spec fn lookup(es: Seq<Entry>, name: Seq<char>) -> Option<Seq<Seq<char>>>
    decreases es.len(),
{
    if es.len() == 0 {
        None
    } else if es[0].0 == name {
        Some(es[0].1)
    } else {
        lookup(es.skip(1), name)
    }
}

/// Adds one line under `name`, after the lines it already holds.
pub open spec fn append(es: Seq<Entry>, name: Seq<char>, line: Seq<char>) -> Seq<Entry> {
    put(
        es,
        name,
        match lookup(es, name) {
            Some(lines) => lines.push(line),
            None => seq![line],
        },
    )
}

/// All lines of the table, name by name in table order.
pub open spec fn all_lines(es: Seq<Entry>) -> Seq<Seq<char>>
    decreases es.len(),
{
    if es.len() == 0 {
        Seq::empty()
    } else {
        all_lines(es.drop_last()) + es.last().1
    }
}

/// The ghost view of a table held in vectors.
pub open spec fn entries_view(v: Seq<(Vec<char>, Vec<Vec<char>>)>) -> Seq<Entry> {
    v.map_values(|e: (Vec<char>, Vec<Vec<char>>)| (e.0@, e.1@.map_values(|l: Vec<char>| l@)))
}

pub(crate) proof fn lemma_text_lt_irreflexive(a: Seq<char>)
    ensures
        !text_lt(a, a),
    decreases a.len(),
{
    if a.len() > 0 {
        lemma_text_lt_irreflexive(a.skip(1));
    }
}

pub(crate) proof fn lemma_text_lt_transitive(a: Seq<char>, b: Seq<char>, c: Seq<char>)
    requires
        text_lt(a, b),
        text_lt(b, c),
    ensures
        text_lt(a, c),
    decreases a.len(),
{
    if a.len() > 0 && b.len() > 0 && c.len() > 0 && a[0] == b[0] && b[0] == c[0] {
        lemma_text_lt_transitive(a.skip(1), b.skip(1), c.skip(1));
    }
}

proof fn lemma_text_lt_total(a: Seq<char>, b: Seq<char>)
    requires
        a != b,
    ensures
        text_lt(a, b) || text_lt(b, a),
    decreases a.len(),
{
    if a.len() > 0 && b.len() > 0 && a[0] == b[0] {
        if a.skip(1) == b.skip(1) {
            assert(a =~= seq![a[0]] + a.skip(1));
            assert(b =~= seq![b[0]] + b.skip(1));
        }
        lemma_text_lt_total(a.skip(1), b.skip(1));
    } else if a.len() == 0 && b.len() == 0 {
        assert(a =~= b);
    }
}

/// Putting keeps the names ascending.
pub proof fn lemma_put_keeps_order(es: Seq<Entry>, name: Seq<char>, lines: Seq<Seq<char>>)
    requires
        names_ascending(es),
    ensures
        names_ascending(put(es, name, lines)),
        forall|k: int|
            0 <= k < put(es, name, lines).len() ==> #[trigger] put(es, name, lines)[k].0 == name
                || exists|j: int| 0 <= j < es.len() && es[j].0 == put(es, name, lines)[k].0,
    decreases es.len(),
{
    let r = put(es, name, lines);
    if es.len() == 0 {
    } else if es[0].0 == name {
        assert forall|i: int, j: int| 0 <= i < j < r.len() implies text_lt(r[i].0, r[j].0) by {
            if i == 0 {
                assert(es[j].0 == r[j].0);
                assert(text_lt(es[0].0, es[j].0));
            } else {
                assert(r[i] == es[i] && r[j] == es[j]);
            }
        }
        assert forall|k: int| 0 <= k < r.len() implies #[trigger] r[k].0 == name || exists|j: int|
            0 <= j < es.len() && es[j].0 == r[k].0 by {
            if k > 0 {
                assert(r[k] == es[k]);
            }
        }
    } else if text_lt(name, es[0].0) {
        assert forall|i: int, j: int| 0 <= i < j < r.len() implies text_lt(r[i].0, r[j].0) by {
            if i == 0 {
                assert(r[j] == es[j - 1]);
                if j - 1 > 0 {
                    assert(text_lt(es[0].0, es[j - 1].0));
                    lemma_text_lt_transitive(name, es[0].0, es[j - 1].0);
                }
            } else {
                assert(r[i] == es[i - 1] && r[j] == es[j - 1]);
            }
        }
        assert forall|k: int| 0 <= k < r.len() implies #[trigger] r[k].0 == name || exists|j: int|
            0 <= j < es.len() && es[j].0 == r[k].0 by {
            if k > 0 {
                assert(r[k] == es[k - 1]);
            }
        }
    } else {
        let tail = es.skip(1);
        assert forall|i: int, j: int| 0 <= i < j < tail.len() implies text_lt(
            tail[i].0,
            tail[j].0,
        ) by {
            assert(tail[i] == es[i + 1] && tail[j] == es[j + 1]);
        }
        lemma_put_keeps_order(tail, name, lines);
        let pr = put(tail, name, lines);
        assert(r == seq![es[0]] + pr);
        lemma_text_lt_total(name, es[0].0);
        assert(text_lt(es[0].0, name));
        assert forall|k: int| 0 <= k < r.len() implies #[trigger] r[k].0 == name || exists|j: int|
            0 <= j < es.len() && es[j].0 == r[k].0 by {
            if k > 0 {
                assert(r[k] == pr[k - 1]);
                if pr[k - 1].0 != name {
                    let j = choose|j: int| 0 <= j < tail.len() && tail[j].0 == pr[k - 1].0;
                    assert(es[j + 1].0 == r[k].0);
                }
            }
        }
        assert forall|i: int, j: int| 0 <= i < j < r.len() implies text_lt(r[i].0, r[j].0) by {
            if i == 0 {
                assert(r[j] == pr[j - 1]);
                if pr[j - 1].0 == name {
                } else {
                    let m = choose|m: int| 0 <= m < tail.len() && tail[m].0 == pr[j - 1].0;
                    assert(tail[m] == es[m + 1]);
                }
            } else {
                assert(r[i] == pr[i - 1] && r[j] == pr[j - 1]);
            }
        }
    }
}

/// After putting, the name holds exactly the given lines, and every other
/// name holds what it held before.
pub proof fn lemma_put_lookup(es: Seq<Entry>, name: Seq<char>, lines: Seq<Seq<char>>, other: Seq<char>)
    ensures
        lookup(put(es, name, lines), name) == Some(lines),
        other != name ==> lookup(put(es, name, lines), other) == lookup(es, other),
    decreases es.len(),
{
    let r = put(es, name, lines);
    if es.len() == 0 {
        assert(r.skip(1) =~= Seq::<Entry>::empty());
        assert(lookup(r.skip(1), other) is None);
    } else if es[0].0 == name {
        assert(r.skip(1) =~= es.skip(1));
        if other != name {
            assert(lookup(r, other) == lookup(r.skip(1), other));
            assert(lookup(es, other) == lookup(es.skip(1), other));
        }
    } else if text_lt(name, es[0].0) {
        assert(r.skip(1) =~= es);
        if other != name {
            assert(lookup(r, other) == lookup(es, other));
        }
    } else {
        lemma_put_lookup(es.skip(1), name, lines, other);
        assert(r.skip(1) =~= put(es.skip(1), name, lines));
        assert(r[0] == es[0]);
        if other != name {
            if es[0].0 == other {
                assert(lookup(r, other) == Some(es[0].1));
            } else {
                assert(lookup(r, other) == lookup(r.skip(1), other));
            }
        }
    }
}

/// A name the table holds is held by one of its entries.
pub(crate) proof fn lemma_lookup_entry(es: Seq<Entry>, name: Seq<char>)
    requires
        lookup(es, name) is Some,
    ensures
        exists|i: int| 0 <= i < es.len() && es[i].1 == lookup(es, name)->0,
    decreases es.len(),
{
    if es[0].0 != name {
        lemma_lookup_entry(es.skip(1), name);
        let i = choose|i: int| 0 <= i < es.skip(1).len() && es.skip(1)[i].1 == lookup(
            es.skip(1),
            name,
        )->0;
        assert(es[i + 1] == es.skip(1)[i]);
    } else {
        assert(es[0].1 == lookup(es, name)->0);
    }
}

/// Every line of every entry is among the lines of the table.
pub(crate) proof fn lemma_entry_lines_listed(es: Seq<Entry>, i: int, k: int)
    requires
        0 <= i < es.len(),
        0 <= k < es[i].1.len(),
    ensures
        all_lines(es).contains(es[i].1[k]),
    decreases es.len(),
{
    let head = all_lines(es.drop_last());
    if i == es.len() - 1 {
        assert(all_lines(es)[head.len() + k] == es[i].1[k]);
    } else {
        assert(es.drop_last()[i] == es[i]);
        lemma_entry_lines_listed(es.drop_last(), i, k);
        let j = choose|j: int| 0 <= j < head.len() && head[j] == es[i].1[k];
        assert(all_lines(es)[j] == es[i].1[k]);
    }
}

/// Where a scan for `name` stops: the first entry with that name or with a
/// greater name.
proof fn lemma_put_at(es: Seq<Entry>, name: Seq<char>, lines: Seq<Seq<char>>, i: int)
    requires
        0 <= i <= es.len(),
        forall|j: int| 0 <= j < i ==> es[j].0 != name && !text_lt(name, es[j].0),
        i < es.len() ==> (es[i].0 == name || text_lt(name, es[i].0)),
    ensures
        put(es, name, lines) == if i < es.len() && es[i].0 == name {
            es.take(i) + seq![(name, lines)] + es.skip(i + 1)
        } else {
            es.take(i) + seq![(name, lines)] + es.skip(i)
        },
    decreases es.len(),
{
    if i == 0 {
        assert(es.take(0) =~= Seq::<Entry>::empty());
        if es.len() > 0 && es[0].0 == name {
            assert(seq![(name, lines)] + es.skip(1) =~= es.take(0) + seq![(name, lines)] + es.skip(
                1,
            ));
        } else {
            assert(seq![(name, lines)] + es =~= es.take(0) + seq![(name, lines)] + es.skip(0));
            if es.len() == 0 {
                assert(seq![(name, lines)] =~= es.take(0) + seq![(name, lines)] + es.skip(0));
            }
        }
    } else {
        let tail = es.skip(1);
        lemma_put_at(tail, name, lines, i - 1);
        if i < es.len() && es[i].0 == name {
            assert(seq![es[0]] + (tail.take(i - 1) + seq![(name, lines)] + tail.skip(i)) =~= es.take(
                i,
            ) + seq![(name, lines)] + es.skip(i + 1));
        } else {
            assert(seq![es[0]] + (tail.take(i - 1) + seq![(name, lines)] + tail.skip(i - 1))
                =~= es.take(i) + seq![(name, lines)] + es.skip(i));
        }
    }
}

proof fn lemma_lookup_absent(es: Seq<Entry>, name: Seq<char>)
    requires
        forall|j: int| 0 <= j < es.len() ==> es[j].0 != name,
    ensures
        lookup(es, name) is None,
    decreases es.len(),
{
    if es.len() > 0 {
        lemma_lookup_absent(es.skip(1), name);
    }
}

proof fn lemma_lookup_found(es: Seq<Entry>, name: Seq<char>, i: int)
    requires
        0 <= i < es.len(),
        es[i].0 == name,
        forall|j: int| 0 <= j < i ==> es[j].0 != name,
    ensures
        lookup(es, name) == Some(es[i].1),
    decreases es.len(),
{
    if i > 0 {
        lemma_lookup_found(es.skip(1), name, i - 1);
    }
}

/// In an ascending table, a scan for `name` that stops at an entry of another
/// name (or at the end) shows that the name is not in the table.
proof fn lemma_lookup_at(es: Seq<Entry>, name: Seq<char>, i: int)
    requires
        names_ascending(es),
        0 <= i <= es.len(),
        forall|j: int| 0 <= j < i ==> es[j].0 != name,
        i < es.len() ==> (es[i].0 == name || text_lt(name, es[i].0)),
    ensures
        lookup(es, name) == if i < es.len() && es[i].0 == name {
            Some(es[i].1)
        } else {
            None
        },
{
    if i < es.len() && es[i].0 == name {
        lemma_lookup_found(es, name, i);
    } else {
        assert forall|j: int| 0 <= j < es.len() implies es[j].0 != name by {
            if j > i {
                lemma_text_lt_transitive(name, es[i].0, es[j].0);
                lemma_text_lt_irreflexive(name);
            } else if j == i {
                lemma_text_lt_irreflexive(name);
            }
        }
        lemma_lookup_absent(es, name);
    }
}

/// A table of properties held in ascending name order.
#[derive(Debug)]
pub struct PropertyTable {
    entries: Vec<(Vec<char>, Vec<Vec<char>>)>,
}

impl PropertyTable {
    /// The entries of the table, name by name.
    pub closed spec fn view(&self) -> Seq<Entry> {
        entries_view(self.entries@)
    }

    /// The names of the table are ascending.
    pub closed spec fn well_formed(&self) -> bool {
        names_ascending(self.view())
    }

    /// The empty table.
    pub fn new() -> (t: PropertyTable)
        ensures
            t.view() == Seq::<Entry>::empty(),
            t.well_formed(),
    {
        let t = PropertyTable { entries: Vec::new() };
        assert(t.view() =~= Seq::<Entry>::empty());
        t
    }

    /// The index at which a scan for `name` stops.
    fn position(&self, name: &Vec<char>) -> (i: usize)
        ensures
            i <= self.view().len(),
            forall|j: int|
                0 <= j < i ==> self.view()[j].0 != name@ && !text_lt(name@, self.view()[j].0),
            i < self.view().len() ==> (self.view()[i as int].0 == name@ || text_lt(
                name@,
                self.view()[i as int].0,
            )),
    {
        let mut i: usize = 0;
        while i < self.entries.len()
            invariant
                i <= self.entries.len(),
                self.view() == entries_view(self.entries@),
                forall|j: int|
                    0 <= j < i ==> self.view()[j].0 != name@ && !text_lt(
                        name@,
                        self.view()[j].0,
                    ),
            decreases self.entries.len() - i,
        {
            let key = &self.entries[i].0;
            assert(self.view()[i as int].0 == key@);
            if crate::text::chars_equal(key, name) || text_less(name, key) {
                return i;
            }
            i = i + 1;
        }
        i
    }

    /// Sets the lines of `name` to the single line `line` (see [`put`]).
    pub fn set(&mut self, name: &Vec<char>, line: Vec<char>)
        requires
            old(self).well_formed(),
        ensures
            final(self).view() == put(old(self).view(), name@, seq![line@]),
            final(self).well_formed(),
    {
        proof {
            lemma_put_keeps_order(self.view(), name@, seq![line@]);
        }
        let i = self.position(name);
        let ghost es = self.view();
        let mut lines: Vec<Vec<char>> = Vec::new();
        lines.push(line);
        assert(lines@.map_values(|l: Vec<char>| l@) =~= seq![line@]);
        proof {
            lemma_put_at(es, name@, seq![line@], i as int);
        }
        if i < self.entries.len() && crate::text::chars_equal(&self.entries[i].0, name) {
            self.entries.set(i, (name.clone(), lines));
            assert(self.view() =~= es.take(i as int) + seq![(name@, seq![line@])] + es.skip(
                i + 1,
            ));
        } else {
            self.entries.insert(i, (name.clone(), lines));
            assert(self.view() =~= es.take(i as int) + seq![(name@, seq![line@])] + es.skip(
                i as int,
            ));
        }
    }

    /// Adds `line` under `name`, after the lines it already holds (see
    /// [`append`]).
    pub fn add(&mut self, name: &Vec<char>, line: Vec<char>)
        requires
            old(self).well_formed(),
        ensures
            final(self).view() == append(old(self).view(), name@, line@),
            final(self).well_formed(),
    {
        let i = self.position(name);
        let ghost es = self.view();
        proof {
            lemma_lookup_at(es, name@, i as int);
            lemma_put_keeps_order(es, name@, match lookup(es, name@) {
                Some(lines) => lines.push(line@),
                None => seq![line@],
            });
        }
        if i < self.entries.len() && crate::text::chars_equal(&self.entries[i].0, name) {
            let mut lines = self.entries[i].1.clone();
            proof {
                lemma_put_at(es, name@, es[i as int].1.push(line@), i as int);
            }
            assert(lines@.map_values(|l: Vec<char>| l@) =~= es[i as int].1);
            lines.push(line);
            assert(lines@.map_values(|l: Vec<char>| l@) =~= es[i as int].1.push(line@));
            self.entries.set(i, (name.clone(), lines));
            assert(self.view() =~= es.take(i as int) + seq![(name@, es[i as int].1.push(line@))]
                + es.skip(i + 1));
        } else {
            proof {
                lemma_put_at(es, name@, seq![line@], i as int);
            }
            let mut lines: Vec<Vec<char>> = Vec::new();
            lines.push(line);
            assert(lines@.map_values(|l: Vec<char>| l@) =~= seq![line@]);
            self.entries.insert(i, (name.clone(), lines));
            assert(self.view() =~= es.take(i as int) + seq![(name@, seq![line@])] + es.skip(
                i as int,
            ));
        }
    }

    /// All lines of the table, name by name (see [`all_lines`]).
    pub fn lines(&self) -> (r: Vec<String>)
        ensures
            crate::ics::views(r@) == all_lines(self.view()),
    {
        let mut r: Vec<String> = Vec::new();
        let mut i: usize = 0;
        while i < self.entries.len()
            invariant
                i <= self.entries.len(),
                crate::ics::views(r@) == all_lines(self.view().take(i as int)),
            decreases self.entries.len() - i,
        {
            let ghost before = crate::ics::views(r@);
            let lines = &self.entries[i].1;
            let mut j: usize = 0;
            while j < lines.len()
                invariant
                    j <= lines.len(),
                    crate::ics::views(r@) == before + lines@.map_values(|l: Vec<char>| l@).take(
                        j as int,
                    ),
                decreases lines.len() - j,
            {
                let s = crate::text::string_of(&lines[j]);
                let ghost b2 = crate::ics::views(r@);
                r.push(s);
                assert(crate::ics::views(r@) =~= b2.push(lines@[j as int]@));
                j = j + 1;
                assert(lines@.map_values(|l: Vec<char>| l@).take(j as int) =~= lines@.map_values(
                    |l: Vec<char>| l@,
                ).take(j - 1).push(lines@[j - 1]@));
            }
            assert(lines@.map_values(|l: Vec<char>| l@).take(lines.len() as int)
                =~= lines@.map_values(|l: Vec<char>| l@));
            i = i + 1;
            assert(self.view().take(i as int).drop_last() =~= self.view().take(i - 1));
            assert(self.view().take(i as int).last() == self.view()[i - 1]);
        }
        assert(self.view().take(self.entries.len() as int) =~= self.view());
        r
    }
}

/// [`text_lt`] of two texts.
pub fn text_less(a: &Vec<char>, b: &Vec<char>) -> (r: bool)
    ensures
        r == text_lt(a@, b@),
{
    let mut i: usize = 0;
    assert(a@.skip(0) =~= a@ && b@.skip(0) =~= b@);
    while i < a.len() && i < b.len() && a[i] == b[i]
        invariant
            i <= a.len(),
            i <= b.len(),
            text_lt(a@, b@) == text_lt(a@.skip(i as int), b@.skip(i as int)),
        decreases a.len() - i,
    {
        assert(a@.skip(i as int).skip(1) =~= a@.skip(i + 1));
        assert(b@.skip(i as int).skip(1) =~= b@.skip(i + 1));
        i = i + 1;
    }
    if i == a.len() {
        i < b.len()
    } else if i == b.len() {
        false
    } else {
        a[i] < b[i]
    }
}

} // verus!
