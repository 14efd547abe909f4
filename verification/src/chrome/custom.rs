//! The output of the commands that modules of the bar show.
//!
//! The cache says which commands are due; the caller runs them and hands their
//! output back.

use vstd::prelude::*;

use crate::text::{chars_of, same, string_of, trim, trim_spec};
use crate::twm::anim::elapsed;

verus! {

#[derive(Debug)]
pub struct Entry {
    pub name: String,
    pub command: String,
    pub interval_ms: u64,
    /// When the command ran last.
    pub last_poll: Option<u64>,
    pub text: String,
}

/// What an [`Entry`] holds.
pub struct EntryView {
    pub name: Seq<char>,
    pub command: Seq<char>,
    pub interval_ms: u64,
    pub last_poll: Option<u64>,
    pub text: Seq<char>,
}

impl View for Entry {
    type V = EntryView;

    open spec fn view(&self) -> EntryView {
        EntryView {
            name: self.name@,
            command: self.command@,
            interval_ms: self.interval_ms,
            last_poll: self.last_poll,
            text: self.text@,
        }
    }
}

pub open spec fn entries_view(v: Seq<Entry>) -> Seq<EntryView> {
    Seq::new(v.len(), |i: int| v[i]@)
}

/// Whether a command that ran last at `last_poll` is to run at `now_ms`.
pub open spec fn due(last_poll: Option<u64>, interval_ms: u64, now_ms: u64) -> bool {
    match last_poll {
        Some(t) => elapsed(t, now_ms) >= interval_ms,
        None => true,
    }
}

/// Whether a command that ran last at `last_poll` is to run at `now_ms`. A
/// clock that went back counts as standing still.
pub fn is_due(last_poll: Option<u64>, interval_ms: u64, now_ms: u64) -> (r: bool)
    ensures
        r == due(last_poll, interval_ms, now_ms),
{
    match last_poll {
        Some(t) => now_ms.saturating_sub(t) >= interval_ms,
        None => true,
    }
}

#[derive(Debug)]
pub struct CustomModuleCache {
    pub entries: Vec<Entry>,
}

/// The index of the entry `name`, or the number of entries.
pub open spec fn entry_at(entries: Seq<EntryView>, name: Seq<char>) -> int
    decreases entries.len(),
{
    if entries.len() == 0 || entries[0].name == name {
        0
    } else {
        1 + entry_at(entries.skip(1), name)
    }
}

/// The entries with one more, unless there is one of that name.
pub open spec fn registered(
    entries: Seq<EntryView>,
    name: Seq<char>,
    command: Seq<char>,
    interval_ms: u64,
) -> Seq<EntryView> {
    if entry_at(entries, name) < entries.len() {
        entries
    } else {
        entries.push(
            EntryView { name, command, interval_ms, last_poll: None, text: Seq::empty() },
        )
    }
}

/// The entries once those that are due at `now_ms` have been polled.
pub open spec fn polled(entries: Seq<EntryView>, now_ms: u64) -> Seq<EntryView> {
    Seq::new(
        entries.len(),
        |i: int|
            if due(entries[i].last_poll, entries[i].interval_ms, now_ms) {
                EntryView { last_poll: Some(now_ms), ..entries[i] }
            } else {
                entries[i]
            },
    )
}

/// A command to run.
#[derive(Debug)]
pub struct Poll {
    pub name: String,
    pub command: String,
}

pub open spec fn polls_view(v: Seq<Poll>) -> Seq<(Seq<char>, Seq<char>)> {
    Seq::new(v.len(), |i: int| (v[i].name@, v[i].command@))
}

/// The names and commands of the entries that are due at `now_ms`.
pub open spec fn polls_due(entries: Seq<EntryView>, now_ms: u64) -> Seq<(Seq<char>, Seq<char>)>
    decreases entries.len(),
{
    if entries.len() == 0 {
        Seq::empty()
    } else {
        let before = polls_due(entries.drop_last(), now_ms);
        let e = entries.last();
        if due(e.last_poll, e.interval_ms, now_ms) {
            before.push((e.name, e.command))
        } else {
            before
        }
    }
}

impl View for CustomModuleCache {
    type V = Seq<EntryView>;

    open spec fn view(&self) -> Seq<EntryView> {
        entries_view(self.entries@)
    }
}

impl Default for CustomModuleCache {
    fn default() -> (r: Self)
        ensures
            r@ == Seq::<EntryView>::empty(),
    {
        CustomModuleCache::new()
    }
}

impl CustomModuleCache {
    pub fn new() -> (r: Self)
        ensures
            r@ == Seq::<EntryView>::empty(),
    {
        let r = CustomModuleCache { entries: Vec::new() };
        assert(r@ =~= Seq::<EntryView>::empty());
        r
    }

    fn find(&self, name: &str) -> (r: usize)
        ensures
            r == entry_at(self@, name@),
            r <= self.entries@.len(),
    {
        let ghost all = self@;
        let mut i: usize = 0;
        assert(all.skip(0) =~= all);
        while i < self.entries.len()
            invariant
                i <= self.entries@.len(),
                all == self@,
                entry_at(all, name@) == i + entry_at(all.skip(i as int), name@),
            decreases self.entries@.len() - i,
        {
            assert(all.skip(i as int)[0] == self.entries@[i as int]@);
            assert(all.skip(i as int).skip(1) =~= all.skip(i + 1));
            if same(self.entries[i].name.as_str(), name) {
                return i;
            }
            i += 1;
        }
        i
    }

    /// Registers a module. Doing so again under the same name changes nothing.
    pub fn register(&mut self, name: &str, command: &str, interval_ms: u64)
        ensures
            final(self)@ == registered(old(self)@, name@, command@, interval_ms),
    {
        if self.find(name) < self.entries.len() {
            return;
        }
        let text = String::new();
        assert(text@ =~= Seq::<char>::empty());
        let e = Entry {
            name: name.to_owned(),
            command: command.to_owned(),
            interval_ms,
            last_poll: None,
            text,
        };
        self.entries.push(e);
        assert(self@ =~= old(self)@.push(e@));
    }

    /// The commands that are due; they count as run.
    pub fn tick(&mut self, now_ms: u64) -> (r: Vec<Poll>)
        ensures
            final(self)@ == polled(old(self)@, now_ms),
            polls_view(r@) == polls_due(old(self)@, now_ms),
    {
        let ghost all = self@;
        let mut r: Vec<Poll> = Vec::new();
        let n: usize = self.entries.len();
        let mut i: usize = 0;
        assert(polls_view(r@) =~= polls_due(all.take(0), now_ms));
        while i < n
            invariant
                i <= n,
                n == self.entries@.len(),
                n == all.len(),
                forall|k: int|
                    0 <= k < n ==> (#[trigger] self@[k]) == if k < i {
                        polled(all, now_ms)[k]
                    } else {
                        all[k]
                    },
                polls_view(r@) == polls_due(all.take(i as int), now_ms),
            decreases n - i,
        {
            let ghost before = self@;
            let ghost got = r@;
            assert(before[i as int] == self.entries@[i as int]@);
            if is_due(self.entries[i].last_poll, self.entries[i].interval_ms, now_ms) {
                let p = Poll {
                    name: self.entries[i].name.clone(),
                    command: self.entries[i].command.clone(),
                };
                r.push(p);
                assert(polls_view(r@) =~= polls_view(got).push((p.name@, p.command@)));
                self.entries[i].last_poll = Some(now_ms);
            }
            i += 1;
            assert(all.take(i as int).drop_last() =~= all.take(i - 1));
            assert(all.take(i as int).last() == all[i - 1]);
            assert(self@ =~= before.update(i - 1, polled(all, now_ms)[i - 1]));
        }
        assert(all.take(i as int) =~= all);
        assert(self@ =~= polled(all, now_ms));
        r
    }

    /// Keeps the output of the command of the module `name`, without white
    /// space around it.
    pub fn store(&mut self, name: &str, output: &str)
        ensures
            final(self)@ == ({
                let i = entry_at(old(self)@, name@);
                if i < old(self)@.len() {
                    old(self)@.update(i, EntryView { text: trim_spec(output@), ..old(self)@[i] })
                } else {
                    old(self)@
                }
            }),
    {
        let ghost all = self@;
        let i: usize = self.find(name);
        if i < self.entries.len() {
            let c = chars_of(output);
            self.entries[i].text = string_of(trim(c.as_slice()));
            assert(self@ =~= all.update(
                i as int,
                EntryView { text: trim_spec(output@), ..all[i as int] },
            ));
        }
    }

    /// The last output of the command of the module `name`.
    pub fn get(&self, name: &str) -> (r: Option<String>)
        ensures
            match r {
                Some(s) => entry_at(self@, name@) < self@.len() && s@ == self@[entry_at(
                    self@,
                    name@,
                )].text,
                None => entry_at(self@, name@) == self@.len(),
            },
    {
        let i: usize = self.find(name);
        if i < self.entries.len() {
            Some(self.entries[i].text.clone())
        } else {
            None
        }
    }
}

/// Registering a module again changes nothing.
pub proof fn law_register_twice(
    entries: Seq<EntryView>,
    name: Seq<char>,
    a: Seq<char>,
    i: u64,
    b: Seq<char>,
    j: u64,
)
    ensures
        registered(registered(entries, name, a, i), name, b, j) == registered(entries, name, a, i),
{
    if entry_at(entries, name) >= entries.len() {
        lemma_entry_push(
            entries,
            EntryView { name, command: a, interval_ms: i, last_poll: None, text: Seq::empty() },
        );
    }
}

proof fn lemma_entry_push(entries: Seq<EntryView>, e: EntryView)
    ensures
        entry_at(entries.push(e), e.name) <= entries.len(),
    decreases entries.len(),
{
    if entries.len() > 0 && entries[0].name != e.name {
        lemma_entry_push(entries.skip(1), e);
        assert(entries.push(e).skip(1) =~= entries.skip(1).push(e));
    }
}

/// A command does not run again before its interval is over.
pub proof fn law_not_before_the_interval(
    entries: Seq<EntryView>,
    now_ms: u64,
    later_ms: u64,
    i: int,
)
    requires
        0 <= i < entries.len(),
        due(entries[i].last_poll, entries[i].interval_ms, now_ms),
        now_ms <= later_ms,
    ensures
        due(
            polled(entries, now_ms)[i].last_poll,
            polled(entries, now_ms)[i].interval_ms,
            later_ms,
        ) <==> later_ms - now_ms >= entries[i].interval_ms,
{
}

} // verus!
