//! The rules of one traversal step: what becomes of each entry of a
//! directory, and the order in which entries are looked at.

use vstd::prelude::*;
use crate::config::{Config, ConfigView, DateOnlyBehavior, Retention, strings_view};
use crate::dates::{
    Timestamp, attempt_path_parse, date_only_stamp, local_now, match_formats, within_spec,
};
use crate::names::transformed_name;
use crate::text::{
    lemma_text_le_total, lemma_text_le_transitive, text_le, text_le_exec, trim_spec, trim_text,
};

verus! {

/// What the walk does with one directory entry.
#[derive(Clone, Copy, Debug, PartialEq, Eq, Structural)]
pub enum EntryAction {
    /// Dated and past the retention window: remove it with its contents.
    Delete,
    /// Dated and inside the retention window: leave it.
    Keep,
    /// Not dated, and a directory under deep traversal: look inside later.
    Descend,
    /// Not dated, and not to be looked into: leave it.
    Skip,
}

/// The name under which an entry is matched: transformed, then trimmed.
pub open spec fn match_name(c: ConfigView, raw: Seq<char>) -> Seq<char> {
    trim_spec(transformed_name(raw, c.remove, c.split_string, c.split_join, c.split_indicies))
}

/// The timestamp read from an entry's name, if any.
pub open spec fn entry_date(c: ConfigView, raw: Seq<char>) -> Option<Timestamp> {
    match_formats(c.format, match_name(c, raw), c.date_only_behavior)
}

/// What becomes of the entry `raw` at the time `now`.
pub open spec fn entry_action(c: ConfigView, raw: Seq<char>, is_file: bool, now: Timestamp) -> EntryAction {
    match entry_date(c, raw) {
        Some(t) => match c.retention {
            Retention::Days(n) => if within_spec(t, n as int, now) {
                EntryAction::Keep
            } else {
                EntryAction::Delete
            },
            Retention::Unknown => EntryAction::Keep,
        },
        None => if c.deep && !is_file {
            EntryAction::Descend
        } else {
            EntryAction::Skip
        },
    }
}

/// A policy that the walk can run under.
pub open spec fn walkable(c: &Config) -> bool {
    c.retention is Days && c.date_only_behavior.is_valid()
}

/// What becomes of the entry named `raw` when the time is `now`.
pub fn decide_entry_at(config: &Config, raw: &str, is_file: bool, now: &Timestamp) -> (r: EntryAction)
    requires
        walkable(config),
    ensures
        r == entry_action(config@, raw@, is_file, *now),
{
    let name = config.format_name(raw);
    let trimmed = trim_text(name.as_str());
    match attempt_path_parse(config, trimmed) {
        Some(t) => match config.retention {
            Retention::Days(n) => if t.is_within_at(n, now) {
                EntryAction::Keep
            } else {
                EntryAction::Delete
            },
            Retention::Unknown => EntryAction::Keep,
        },
        None => if config.deep && !is_file {
            EntryAction::Descend
        } else {
            EntryAction::Skip
        },
    }
}

/// What becomes of the entry named `raw` at the current wall-clock time.
/// Whatever the time, an entry without a date is descended into or skipped
/// as the policy says, and a dated entry is kept or deleted.
pub fn decide_entry(config: &Config, raw: &str, is_file: bool) -> (r: EntryAction)
    requires
        walkable(config),
    ensures
        entry_date(config@, raw@) is None ==> r == (if config.deep && !is_file {
            EntryAction::Descend
        } else {
            EntryAction::Skip
        }),
        entry_date(config@, raw@) is Some ==> (r is Keep || r is Delete),
{
    let now = local_now();
    decide_entry_at(config, raw, is_file, &now)
}

/// Each name comes no later than every name after it.
pub open spec fn ascending(s: Seq<Seq<char>>) -> bool {
    forall|i: int, j: int| 0 <= i < j < s.len() ==> text_le(#[trigger] s[i], #[trigger] s[j])
}

/// The names in ascending lexicographic order: the order in which the
/// entries of a directory are looked at.
pub fn sorted_names(names: &Vec<String>) -> (r: Vec<String>)
    ensures
        ascending(strings_view(r@)),
        strings_view(r@).to_multiset() == strings_view(names@).to_multiset(),
{
    let mut out: Vec<String> = Vec::new();
    let mut k: usize = 0;
    assert(strings_view(names@).take(0) =~= Seq::<Seq<char>>::empty());
    assert(strings_view(out@) =~= Seq::<Seq<char>>::empty());
    while k < names.len()
        invariant
            k <= names@.len(),
            ascending(strings_view(out@)),
            strings_view(out@).to_multiset() == strings_view(names@).take(k as int).to_multiset(),
        decreases names@.len() - k,
    {
        let x = names[k].clone();
        let ghost v = strings_view(out@);
        let mut p: usize = 0;
        while p < out.len() && text_le_exec(out[p].as_str(), x.as_str())
            invariant
                p <= out@.len(),
                v == strings_view(out@),
                forall|i: int| 0 <= i < p ==> text_le(#[trigger] v[i], x@),
            decreases out@.len() - p,
        {
            p = p + 1;
        }
        proof {
            assert forall|i: int| p <= i < v.len() implies text_le(x@, #[trigger] v[i]) by {
                if text_le(v[i], x@) {
                    if i > p {
                        lemma_text_le_transitive(v[p as int], v[i], x@);
                    }
                }
                lemma_text_le_total(v[i], x@);
            }
        }
        out.insert(p, x);
        proof {
            let w = strings_view(out@);
            assert(w =~= v.insert(p as int, x@));
            assert(ascending(w)) by {
                assert forall|i: int, j: int| 0 <= i < j < w.len() implies text_le(
                    #[trigger] w[i],
                    #[trigger] w[j],
                ) by {
                    if i < p && j > p {
                        assert(w[i] == v[i]);
                        assert(w[j] == v[j - 1]);
                    } else if i > p {
                        assert(w[i] == v[i - 1]);
                        assert(w[j] == v[j - 1]);
                    }
                }
            }
            assert(strings_view(names@).take(k + 1) =~= strings_view(names@).take(k as int).push(x@));
            let t = strings_view(names@).take(k as int);
            assert(t.push(x@) =~= t.insert(k as int, x@));
            vstd::seq_lib::to_multiset_insert(v, p as int, x@);
            vstd::seq_lib::to_multiset_insert(t, k as int, x@);
        }
        k = k + 1;
    }
    assert(strings_view(names@).take(names@.len() as int) =~= strings_view(names@));
    out
}

/// The rules for one entry under a resolved retention: a dated entry past
/// the window is deleted and one inside it is kept; an undated entry is left
/// alone without deep traversal, and an undated directory is descended into
/// with it.
pub proof fn lemma_entry_rules(c: ConfigView, raw: Seq<char>, is_file: bool, now: Timestamp)
    requires
        c.retention is Days,
    ensures
        entry_date(c, raw) matches Some(t) && !within_spec(t, c.retention->Days_0 as int, now)
            ==> entry_action(c, raw, is_file, now) == EntryAction::Delete,
        entry_date(c, raw) matches Some(t) && within_spec(t, c.retention->Days_0 as int, now)
            ==> entry_action(c, raw, is_file, now) == EntryAction::Keep,
        entry_date(c, raw) is None && !c.deep ==> entry_action(c, raw, is_file, now)
            == EntryAction::Skip,
        entry_date(c, raw) is None && c.deep && !is_file ==> entry_action(c, raw, is_file, now)
            == EntryAction::Descend,
{
}

/// What follows a traversal cycle.
#[derive(Clone, Copy, Debug, PartialEq, Eq, Structural)]
pub enum CycleEnd {
    /// Stop scheduling.
    Stop,
    /// Sleep this many seconds, then run the next cycle.
    SleepThenRepeat(u64),
}

/// The scheduler's rule after a cycle: a failed load stops it; a completed
/// traversal is followed, when scheduled, by a sleep of the configured
/// refresh interval and another cycle, and otherwise by the end.
pub fn after_cycle(loaded: &Result<Config, crate::config::ConfigError>, schedule: bool) -> (r: CycleEnd)
    ensures
        r == (match loaded {
            Ok(c) => if schedule {
                CycleEnd::SleepThenRepeat(c.refresh)
            } else {
                CycleEnd::Stop
            },
            Err(_) => CycleEnd::Stop,
        }),
{
    match loaded {
        Ok(c) => if schedule {
            CycleEnd::SleepThenRepeat(c.refresh)
        } else {
            CycleEnd::Stop
        },
        Err(_) => CycleEnd::Stop,
    }
}

/// An entry whose name reads as a date alone, at the start of that day, is
/// kept exactly when it is fewer than `n` days older than the day of `now`,
/// under a retention of `n` days; otherwise it is deleted.
pub proof fn lemma_days_old_kept(
    c: ConfigView,
    raw: Seq<char>,
    is_file: bool,
    now: Timestamp,
    day: i32,
)
    requires
        c.retention is Days,
        entry_date(c, raw) == Some(date_only_stamp(day, DateOnlyBehavior::Start)),
    ensures
        entry_action(c, raw, is_file, now) == (if now.day - day < c.retention->Days_0 {
            EntryAction::Keep
        } else {
            EntryAction::Delete
        }),
{
}

/// The directories still to be looked at in one cycle; the one queued last
/// is looked at first.
pub struct Pending<P> {
    dirs: Vec<P>,
}

impl<P> View for Pending<P> {
    type V = Seq<P>;

    closed spec fn view(&self) -> Seq<P> {
        self.dirs@
    }
}

impl<P> Pending<P> {
    /// A cycle starts with the root alone.
    pub fn new(root: P) -> (r: Pending<P>)
        ensures
            r@ == seq![root],
    {
        let mut dirs: Vec<P> = Vec::new();
        dirs.push(root);
        Pending { dirs }
    }

    /// Takes the directory queued last; `None` ends the cycle.
    pub fn next_dir(&mut self) -> (r: Option<P>)
        ensures
            old(self)@.len() == 0 ==> r is None && final(self)@ == old(self)@,
            old(self)@.len() > 0 ==> r == Some(old(self)@.last()) && final(self)@
                == old(self)@.drop_last(),
    {
        self.dirs.pop()
    }

    /// Queues the directories to look into that one directory gave.
    pub fn queue(&mut self, children: Vec<P>)
        ensures
            final(self)@ == old(self)@ + children@,
    {
        let mut children = children;
        self.dirs.append(&mut children);
    }
}

/// A queued directory is not lost: each step of the cycle either takes it
/// (it was queued last) or leaves it where it was, so, as the cycle runs until
/// nothing is pending, it is looked at later in the same cycle.
pub proof fn lemma_queued_dir_stays<P>(pending: Seq<P>, k: int)
    requires
        0 <= k < pending.len(),
    ensures
        k == pending.len() - 1 || pending.drop_last()[k] == pending[k],
{
}

} // verus!
