use vstd::prelude::*;
use crossbeam::channel::Sender;

use crate::config::{ProcessConfig, ProcessConfigView};

verus! {

#[verifier::external_type_specification]
#[verifier::external_body]
#[verifier::reject_recursive_types(T)]
pub struct ExSender<T>(Sender<T>);

/// What a worker is: the version that its process runs, the channel that
/// stops it, and how many stop signals have been offered on that channel.
pub struct WorkerView {
    pub version: Seq<char>,
    pub stop_sender: Sender<()>,
    pub stops: nat,
}

impl WorkerView {
    /// The same worker after one more stop signal was offered to it.
    pub open spec fn stopped_once(self) -> WorkerView {
        WorkerView { stops: self.stops + 1, ..self }
    }
}

/// A running process, as its node keeps it: the version that it runs and
/// the channel that stops it.
pub struct Worker {
    pub version: String,
    pub stop_sender: Sender<()>,
    stops_sent: Ghost<nat>,
}

impl View for Worker {
    type V = WorkerView;

    closed spec fn view(&self) -> WorkerView {
        WorkerView { version: self.version@, stop_sender: self.stop_sender, stops: self.stops_sent@ }
    }
}

/// Offers one stop signal on the worker's channel with `Sender::try_send`,
/// which never blocks, and counts the offer in the worker's record of stop
/// signals. Whether the signal was taken into the channel (it is not where
/// the channel is full, as a one-place channel is that already holds a stop,
/// or where the receiver is gone) depends on the thread that holds the
/// receiver, so nothing is claimed of the returned outcome; the version and
/// the channel are left as they were.
#[verifier::external_body]
fn send_stop(worker: &mut Worker) -> (delivered: bool)
    ensures
        final(worker)@ == old(worker)@.stopped_once(),
{
    worker.stop_sender.try_send(()).is_ok()
}

impl Worker {
    /// A worker that runs `version`, is stopped through `stop_sender`, and
    /// has not been offered a stop signal yet.
    pub fn new(version: String, stop_sender: Sender<()>) -> (r: Worker)
        ensures
            r@ == (WorkerView { version: version@, stop_sender: stop_sender, stops: 0 }),
    {
        Worker { version, stop_sender, stops_sent: Ghost(0) }
    }

    /// Offers this worker's process one stop signal without waiting;
    /// whether the channel took it is returned.
    pub fn stop(&mut self) -> (delivered: bool)
        ensures
            final(self)@ == old(self)@.stopped_once(),
    {
        send_stop(self)
    }
}

/// The workers of a node, by process name, and the record of the workers
/// taken out of the table, as they were when they were taken out.
pub struct Workers {
    entries: Vec<(String, Worker)>,
    retired: Ghost<Seq<(Seq<char>, WorkerView)>>,
}

/// The table that a list of entries stands for: process name to worker, a
/// later entry of a name taking the place of an earlier one.
pub open spec fn table(s: Seq<(String, Worker)>) -> Map<Seq<char>, WorkerView>
    decreases s.len(),
{
    if s.len() == 0 {
        Map::empty()
    } else {
        table(s.drop_last()).insert(s.last().0@, s.last().1@)
    }
}

/// Process name to the version that its worker runs.
pub open spec fn versions(m: Map<Seq<char>, WorkerView>) -> Map<Seq<char>, Seq<char>> {
    m.map_values(|w: WorkerView| w.version)
}

/// The names of a list of entries, in order.
pub open spec fn entry_names(s: Seq<(String, Worker)>) -> Seq<Seq<char>> {
    s.map_values(|e: (String, Worker)| e.0@)
}

/// Whether an entry's name is one of `names`.
pub open spec fn named_in(names: Set<Seq<char>>) -> spec_fn((String, Worker)) -> bool {
    |e: (String, Worker)| names.contains(e.0@)
}

/// The set of the texts of `names`.
pub open spec fn name_set(names: Seq<String>) -> Set<Seq<char>> {
    names.map_values(|n: String| n@).to_set()
}

/// The records of the entries of `s` that `keep` refuses, in order, each
/// after one stop signal.
pub open spec fn stopped_records(s: Seq<(String, Worker)>, keep: spec_fn((String, Worker)) -> bool) -> Seq<
    (Seq<char>, WorkerView),
>
    decreases s.len(),
{
    if s.len() == 0 {
        Seq::empty()
    } else if keep(s.last()) {
        stopped_records(s.drop_last(), keep)
    } else {
        stopped_records(s.drop_last(), keep).push((s.last().0@, s.last().1@.stopped_once()))
    }
}

/// The names of a list of records, in order.
pub open spec fn record_names(r: Seq<(Seq<char>, WorkerView)>) -> Seq<Seq<char>> {
    r.map_values(|x: (Seq<char>, WorkerView)| x.0)
}

/// `r` records the workers of `m` whose names are not in `names`, each
/// once, each after exactly one more stop signal.
pub open spec fn cleared_records(
    m: Map<Seq<char>, WorkerView>,
    names: Set<Seq<char>>,
    r: Seq<(Seq<char>, WorkerView)>,
) -> bool {
    &&& record_names(r).no_duplicates()
    &&& record_names(r).to_set() == m.dom().difference(names)
    &&& forall|i: int| 0 <= i < r.len() ==> r[i].1 == m[r[i].0].stopped_once()
}

/// Keeping the entries whose names lie in `names` keeps exactly that part
/// of the table.
proof fn lemma_table_filter(s: Seq<(String, Worker)>, names: Set<Seq<char>>)
    ensures
        table(s.filter(named_in(names))) == table(s).restrict(names),
    decreases s.len(),
{
    reveal_with_fuel(Seq::filter, 1);
    if s.len() > 0 {
        let d = s.drop_last();
        lemma_table_filter(d, names);
        let f = s.filter(named_in(names));
        if names.contains(s.last().0@) {
            assert(f == d.filter(named_in(names)).push(s.last()));
            assert(f.drop_last() == d.filter(named_in(names)));
            assert(table(f) =~= table(s).restrict(names));
        } else {
            assert(f == d.filter(named_in(names)));
            assert(table(f) =~= table(s).restrict(names));
        }
    } else {
        assert(table(s).restrict(names) =~= Map::empty());
    }
}

/// The domain of the table is the set of the entries' names.
proof fn lemma_table_dom(s: Seq<(String, Worker)>)
    ensures
        table(s).dom() == entry_names(s).to_set(),
    decreases s.len(),
{
    if s.len() > 0 {
        lemma_table_dom(s.drop_last());
        assert(entry_names(s.drop_last()) == entry_names(s).drop_last());
        assert forall|k: Seq<char>| table(s).dom().contains(k) <==> entry_names(s).to_set().contains(k) by {
            if entry_names(s).contains(k) {
                let i = choose|i: int| 0 <= i < entry_names(s).len() && entry_names(s)[i] == k;
                if i < s.len() - 1 {
                    assert(entry_names(s.drop_last())[i] == k);
                }
            }
            if entry_names(s.drop_last()).contains(k) {
                let i = choose|i: int|
                    0 <= i < entry_names(s.drop_last()).len() && entry_names(s.drop_last())[i] == k;
                assert(entry_names(s)[i] == k);
            }
            assert(entry_names(s)[s.len() - 1] == s.last().0@);
        }
        assert(table(s).dom() =~= entry_names(s).to_set());
    } else {
        assert(table(s).dom() =~= entry_names(s).to_set());
    }
}

/// Where names are unique, the last entry's name is not among the others.
proof fn lemma_last_name_fresh(s: Seq<(String, Worker)>)
    requires
        s.len() > 0,
        entry_names(s).no_duplicates(),
    ensures
        entry_names(s.drop_last()).no_duplicates(),
        !table(s.drop_last()).dom().contains(s.last().0@),
{
    let d = s.drop_last();
    assert(entry_names(d) == entry_names(s).drop_last());
    lemma_table_dom(d);
    if entry_names(d).contains(s.last().0@) {
        let i = choose|i: int| 0 <= i < entry_names(d).len() && entry_names(d)[i] == s.last().0@;
        assert(entry_names(s)[i] == entry_names(s)[s.len() - 1]);
    }
}

/// Where names are unique, each entry is what the table holds for its name.
proof fn lemma_table_at(s: Seq<(String, Worker)>, i: int)
    requires
        entry_names(s).no_duplicates(),
        0 <= i < s.len(),
    ensures
        table(s).contains_key(s[i].0@),
        table(s)[s[i].0@] == s[i].1@,
    decreases s.len(),
{
    if i < s.len() - 1 {
        lemma_last_name_fresh(s);
        let d = s.drop_last();
        lemma_table_at(d, i);
        assert(d[i] == s[i]);
    }
}

/// Where names are unique, replacing an entry by one of the same name
/// replaces that name's worker in the table.
proof fn lemma_table_update(s: Seq<(String, Worker)>, i: int, e: (String, Worker))
    requires
        entry_names(s).no_duplicates(),
        0 <= i < s.len(),
        e.0@ == s[i].0@,
    ensures
        table(s.update(i, e)) == table(s).insert(e.0@, e.1@),
        entry_names(s.update(i, e)) == entry_names(s),
    decreases s.len(),
{
    let u = s.update(i, e);
    assert(entry_names(u) =~= entry_names(s));
    if i == s.len() - 1 {
        assert(u.drop_last() =~= s.drop_last());
        assert(u.last() == e);
        assert(s.last() == s[i]);
        assert(table(u) == table(s.drop_last()).insert(e.0@, e.1@));
        assert(table(s) == table(s.drop_last()).insert(s[i].0@, s[i].1@));
        let k = e.0@;
        assert(s[i].0@ == k);
        assert(table(s.drop_last()).insert(k, s[i].1@).insert(k, e.1@) =~= table(
            s.drop_last(),
        ).insert(k, e.1@));
    } else {
        lemma_last_name_fresh(s);
        let d = s.drop_last();
        lemma_table_update(d, i, e);
        lemma_table_at(d, i);
        assert(d[i] == s[i]);
        assert(e.0@ != s.last().0@);
        assert(u.drop_last() =~= d.update(i, e));
        assert(u.last() == s.last());
        assert(table(u) =~= table(s).insert(e.0@, e.1@));
    }
}

/// Where names are unique and each worker has been offered one more stop
/// signal, the table is the old one with every worker stopped once more.
proof fn lemma_table_all_stopped(s: Seq<(String, Worker)>, t: Seq<(String, Worker)>)
    requires
        s.len() == t.len(),
        forall|k: int| 0 <= k < s.len() ==> t[k].0@ == s[k].0@ && t[k].1@ == s[k].1@.stopped_once(),
    ensures
        table(t) == table(s).map_values(|w: WorkerView| w.stopped_once()),
    decreases s.len(),
{
    if s.len() == 0 {
        assert(table(t) =~= table(s).map_values(|w: WorkerView| w.stopped_once()));
    } else {
        lemma_table_all_stopped(s.drop_last(), t.drop_last());
        assert(table(t) =~= table(s).map_values(|w: WorkerView| w.stopped_once()));
    }
}

/// Where names are unique, the records of the entries that are cleared
/// away hold each worker whose name is not kept, once, stopped once more.
proof fn lemma_stopped_records(s: Seq<(String, Worker)>, names: Set<Seq<char>>)
    requires
        entry_names(s).no_duplicates(),
    ensures
        cleared_records(table(s), names, stopped_records(s, named_in(names))),
    decreases s.len(),
{
    let r = stopped_records(s, named_in(names));
    if s.len() == 0 {
        assert(record_names(r) =~= Seq::<Seq<char>>::empty());
        assert(record_names(r).to_set() =~= table(s).dom().difference(names));
    } else {
        let d = s.drop_last();
        let l = s.last();
        lemma_last_name_fresh(s);
        lemma_stopped_records(d, names);
        let rd = stopped_records(d, named_in(names));
        assert forall|i: int| 0 <= i < rd.len() implies rd[i].0 != l.0@ by {
            assert(record_names(rd)[i] == rd[i].0);
            assert(record_names(rd).to_set().contains(rd[i].0));
        }
        if names.contains(l.0@) {
            assert(r == rd);
            assert(record_names(r).to_set() =~= table(s).dom().difference(names));
        } else {
            assert(r == rd.push((l.0@, l.1@.stopped_once())));
            assert(record_names(r) =~= record_names(rd).push(l.0@));
            assert(!record_names(rd).contains(l.0@)) by {
                if record_names(rd).contains(l.0@) {
                    let i = choose|i: int| 0 <= i < record_names(rd).len() && record_names(rd)[i] == l.0@;
                    assert(rd[i].0 == l.0@);
                }
            }
            assert(table(s).dom() =~= table(d).dom().insert(l.0@));
            assert forall|k: Seq<char>| k != l.0@ implies (record_names(r).contains(k)
                <==> record_names(rd).contains(k)) by {
                if record_names(rd).contains(k) {
                    let i = choose|i: int| 0 <= i < record_names(rd).len() && record_names(rd)[i] == k;
                    assert(record_names(r)[i] == k);
                }
                if record_names(r).contains(k) {
                    let i = choose|i: int| 0 <= i < record_names(r).len() && record_names(r)[i] == k;
                    assert(i < rd.len());
                    assert(record_names(rd)[i] == k);
                }
            }
            assert(record_names(r)[rd.len() as int] == l.0@);
            assert forall|k: Seq<char>| record_names(r).to_set().contains(k)
                <==> table(s).dom().difference(names).contains(k) by {
                if k == l.0@ {
                    assert(record_names(r).contains(k));
                } else {
                    assert(record_names(rd).to_set().contains(k) <==> table(d).dom().difference(
                        names,
                    ).contains(k));
                }
            }
            assert(record_names(r).to_set() =~= table(s).dom().difference(names));
        }
    }
}

/// Filtering keeps the names without duplicates.
proof fn lemma_filter_unique(s: Seq<(String, Worker)>, p: spec_fn((String, Worker)) -> bool)
    requires
        entry_names(s).no_duplicates(),
    ensures
        entry_names(s.filter(p)).no_duplicates(),
        entry_names(s.filter(p)).to_set().subset_of(entry_names(s).to_set()),
    decreases s.len(),
{
    reveal_with_fuel(Seq::filter, 1);
    if s.len() > 0 {
        let d = s.drop_last();
        assert(entry_names(d) == entry_names(s).drop_last());
        assert(entry_names(d).no_duplicates());
        lemma_filter_unique(d, p);
        let f = s.filter(p);
        let fd = d.filter(p);
        assert forall|k: Seq<char>| entry_names(fd).to_set().contains(k) implies entry_names(
            s,
        ).to_set().contains(k) by {
            let i = choose|i: int| 0 <= i < entry_names(d).len() && entry_names(d)[i] == k;
            assert(entry_names(s)[i] == k);
        }
        if p(s.last()) {
            assert(f == fd.push(s.last()));
            assert(entry_names(f) == entry_names(fd).push(s.last().0@));
            assert(!entry_names(fd).contains(s.last().0@)) by {
                if entry_names(fd).contains(s.last().0@) {
                    assert(entry_names(fd).to_set().contains(s.last().0@));
                    let i = choose|i: int|
                        0 <= i < entry_names(d).len() && entry_names(d)[i] == s.last().0@;
                    assert(entry_names(s)[i] == entry_names(s)[s.len() - 1]);
                }
            }
            assert forall|k: Seq<char>| entry_names(f).to_set().contains(k) implies entry_names(
                s,
            ).to_set().contains(k) by {
                let i = choose|i: int| 0 <= i < entry_names(f).len() && entry_names(f)[i] == k;
                if i < entry_names(fd).len() {
                    assert(entry_names(fd)[i] == k);
                    assert(entry_names(fd).to_set().contains(k));
                } else {
                    assert(entry_names(s)[s.len() - 1] == k);
                }
            }
        } else {
            assert(f == fd);
        }
    }
}

impl View for Workers {
    type V = Map<Seq<char>, WorkerView>;

    /// Process name to its worker.
    closed spec fn view(&self) -> Map<Seq<char>, WorkerView> {
        table(self.entries@)
    }
}

/// The position of the entry of the process called `name`, if there is one.
fn find_entry(entries: &Vec<(String, Worker)>, name: &String) -> (r: Option<usize>)
    requires
        entry_names(entries@).no_duplicates(),
    ensures
        r is None ==> !table(entries@).contains_key(name@),
        r matches Some(i) ==> i < entries@.len() && entries@[i as int].0@ == name@
            && table(entries@).contains_key(name@) && table(entries@)[name@]
            == entries@[i as int].1@,
{
    let mut k: usize = 0;
    while k < entries.len()
        invariant
            entry_names(entries@).no_duplicates(),
            k <= entries@.len(),
            forall|j: int| 0 <= j < k ==> entries@[j].0@ != name@,
        decreases entries@.len() - k,
    {
        if entries[k].0 == *name {
            proof {
                lemma_table_at(entries@, k as int);
            }
            return Some(k);
        }
        k = k + 1;
    }
    proof {
        lemma_table_dom(entries@);
        if table(entries@).contains_key(name@) {
            let i = choose|i: int|
                0 <= i < entry_names(entries@).len() && entry_names(entries@)[i] == name@;
            assert(entries@[i].0@ == name@);
        }
    }
    None
}

/// Replaces the entry at `i` by a new one of the same name, giving back
/// the entry that it replaces.
fn replace_entry(entries: &mut Vec<(String, Worker)>, i: usize, e: (String, Worker)) -> (old_entry: (
    String,
    Worker,
))
    requires
        entry_names(old(entries)@).no_duplicates(),
        i < old(entries)@.len(),
        e.0@ == old(entries)@[i as int].0@,
    ensures
        entry_names(final(entries)@).no_duplicates(),
        final(entries)@ == old(entries)@.update(i as int, e),
        table(final(entries)@) == table(old(entries)@).insert(e.0@, e.1@),
        old_entry == old(entries)@[i as int],
{
    let ghost s = entries@;
    let old_entry = entries.remove(i);
    entries.insert(i, e);
    proof {
        assert(entries@ =~= s.update(i as int, e));
        lemma_table_update(s, i as int, e);
    }
    old_entry
}

/// Sends one stop signal to the worker at `i`; nothing else changes.
fn stop_entry(entries: &mut Vec<(String, Worker)>, i: usize)
    requires
        entry_names(old(entries)@).no_duplicates(),
        i < old(entries)@.len(),
    ensures
        entry_names(final(entries)@).no_duplicates(),
        final(entries)@.len() == old(entries)@.len(),
        final(entries)@[i as int].0 == old(entries)@[i as int].0,
        final(entries)@[i as int].1@ == old(entries)@[i as int].1@.stopped_once(),
        forall|k: int|
            0 <= k < old(entries)@.len() && k != i ==> final(entries)@[k] == old(entries)@[k],
        table(final(entries)@) == table(old(entries)@).insert(
            old(entries)@[i as int].0@,
            old(entries)@[i as int].1@.stopped_once(),
        ),
{
    let ghost s = entries@;
    let mut e = entries.remove(i);
    let _ = e.1.stop();
    entries.insert(i, e);
    proof {
        assert(entries@ =~= s.update(i as int, e));
        lemma_table_update(s, i as int, e);
    }
}

impl Workers {
    /// At most one worker per process name.
    #[verifier::type_invariant]
    spec fn well_formed(self) -> bool {
        entry_names(self.entries@).no_duplicates()
    }

    /// The workers taken out of the table so far, in order, each with its
    /// name, as it was when it was taken out.
    pub closed spec fn retired(&self) -> Seq<(Seq<char>, WorkerView)> {
        self.retired@
    }

    /// A node's workers before it has started any process.
    pub fn new() -> (r: Workers)
        ensures
            r@ == Map::<Seq<char>, WorkerView>::empty(),
            r.retired() == Seq::<(Seq<char>, WorkerView)>::empty(),
    {
        proof {
            assert(entry_names(Seq::<(String, Worker)>::empty()) =~= Seq::<Seq<char>>::empty());
        }
        Workers { entries: Vec::new(), retired: Ghost(Seq::empty()) }
    }

    /// Takes the entries out, leaving none.
    fn take_entries(&mut self) -> (entries: Vec<(String, Worker)>)
        ensures
            entries@ == old(self).entries@,
            entry_names(entries@).no_duplicates(),
            final(self).entries@ == Seq::<(String, Worker)>::empty(),
            final(self).retired == old(self).retired,
    {
        proof {
            use_type_invariant(&*self);
            assert(entry_names(Seq::<(String, Worker)>::empty()) =~= Seq::<Seq<char>>::empty());
        }
        let mut entries: Vec<(String, Worker)> = Vec::new();
        std::mem::swap(&mut entries, &mut self.entries);
        entries
    }

    /// Decides whether the process of `config` must be started: not where a
    /// worker already runs that version. A worker that runs another version
    /// is offered one stop signal first, and nothing else; it stays in the
    /// table until its successor is inserted.
    pub fn begin_flush(&mut self, config: &ProcessConfig) -> (start: bool)
        ensures
            final(self).retired() == old(self).retired(),
            start == !runs_version(versions(old(self)@), config@),
            start && old(self)@.contains_key(config.name@) ==> final(self)@ == old(self)@.insert(
                config.name@,
                old(self)@[config.name@].stopped_once(),
            ),
            !(start && old(self)@.contains_key(config.name@)) ==> final(self)@ == old(self)@,
            versions(final(self)@) == versions(old(self)@),
    {
        proof {
            use_type_invariant(&*self);
        }
        match find_entry(&self.entries, &config.name) {
            None => {
                proof {
                    assert(!versions(self@).contains_key(config.name@));
                }
                true
            },
            Some(i) => {
                if self.entries[i].1.version == config.version {
                    proof {
                        assert(versions(self@)[config.name@] == self@[config.name@].version);
                    }
                    false
                } else {
                    let ghost m = self@;
                    let mut entries = self.take_entries();
                    stop_entry(&mut entries, i);
                    self.entries = entries;
                    proof {
                        assert(versions(m)[config.name@] == m[config.name@].version);
                        assert(versions(self@) =~= versions(m));
                    }
                    true
                }
            },
        }
    }

    /// Offers every worker one stop signal; gives how many were offered. The
    /// table keeps the same workers.
    pub fn stop_all(&mut self) -> (count: usize)
        ensures
            final(self).retired() == old(self).retired(),
            count == old(self)@.dom().len(),
            final(self)@ == old(self)@.map_values(|w: WorkerView| w.stopped_once()),
    {
        let mut entries = self.take_entries();
        let ghost s = entries@;
        let mut i: usize = 0;
        while i < entries.len()
            invariant
                entry_names(entries@).no_duplicates(),
                entry_names(s).no_duplicates(),
                entries@.len() == s.len(),
                i <= s.len(),
                forall|k: int|
                    0 <= k < s.len() ==> entries@[k].0@ == s[k].0@ && entries@[k].1@ == (if k < i {
                        s[k].1@.stopped_once()
                    } else {
                        s[k].1@
                    }),
            decreases s.len() - i,
        {
            stop_entry(&mut entries, i);
            i = i + 1;
        }
        let count = entries.len();
        self.entries = entries;
        proof {
            lemma_table_all_stopped(s, self.entries@);
            lemma_table_dom(s);
            entry_names(s).unique_seq_to_set();
        }
        count
    }

    /// Inserts the worker of the process called `name`. One that it had is
    /// taken out, as it was, into the record of retired workers (it was offered
    /// the stop signal by `begin_flush`); dropping it closes its channel.
    pub fn insert(&mut self, name: String, worker: Worker)
        ensures
            final(self)@ == old(self)@.insert(name@, worker@),
            versions(final(self)@) == versions(old(self)@).insert(name@, worker@.version),
            old(self)@.contains_key(name@) ==> final(self).retired() == old(self).retired().push(
                (name@, old(self)@[name@]),
            ),
            !old(self)@.contains_key(name@) ==> final(self).retired() == old(self).retired(),
    {
        let ghost m = self@;
        let ghost n = name@;
        let ghost w = worker@;
        let mut entries = self.take_entries();
        match find_entry(&entries, &name) {
            Some(i) => {
                let old_entry = replace_entry(&mut entries, i, (name, worker));
                self.entries = entries;
                proof {
                    self.retired@ = self.retired@.push((n, old_entry.1@));
                }
            },
            None => {
                let ghost s = entries@;
                entries.push((name, worker));
                proof {
                    lemma_table_dom(s);
                    assert(entries@.drop_last() == s);
                    assert(entry_names(entries@) == entry_names(s).push(n));
                    assert(!entry_names(s).contains(n)) by {
                        if entry_names(s).contains(n) {
                            assert(entry_names(s).to_set().contains(n));
                        }
                    }
                }
                self.entries = entries;
            },
        }
        proof {
            assert(versions(self@) =~= versions(m).insert(n, w.version));
        }
    }

    /// Stops and removes every worker whose process is not named in
    /// `valid_process_names`, each offered exactly one stop signal and recorded
    /// as retired; the others stay as they were, channels included, and are
    /// offered nothing.
    pub fn clear_useless_processes(&mut self, valid_process_names: &Vec<String>)
        ensures
            final(self)@ == old(self)@.restrict(name_set(valid_process_names@)),
            versions(final(self)@) == versions(old(self)@).restrict(name_set(valid_process_names@)),
            final(self).retired().len() >= old(self).retired().len(),
            final(self).retired().subrange(0, old(self).retired().len() as int) == old(
                self,
            ).retired(),
            cleared_records(
                old(self)@,
                name_set(valid_process_names@),
                final(self).retired().subrange(
                    old(self).retired().len() as int,
                    final(self).retired().len() as int,
                ),
            ),
    {
        let ghost old_retired = self.retired@;
        let mut entries = self.take_entries();
        let ghost orig = entries@;
        let ghost names = name_set(valid_process_names@);
        let ghost p = named_in(names);
        let mut i: usize = 0;
        let ghost mut j: int = 0;
        proof {
            reveal_with_fuel(Seq::filter, 1);
            assert(orig.subrange(0, 0) =~= Seq::<(String, Worker)>::empty());
            assert(entries@.subrange(0, 0) =~= orig.subrange(0, 0).filter(p));
            assert(entries@.subrange(0, entries@.len() as int) =~= orig.subrange(
                0,
                orig.len() as int,
            ));
            assert(self.retired@ =~= old_retired + stopped_records(orig.subrange(0, 0), p));
        }
        while i < entries.len()
            invariant
                0 <= j <= orig.len(),
                i <= entries@.len(),
                entries@.len() - i == orig.len() - j,
                entries@.subrange(0, i as int) == orig.subrange(0, j).filter(p),
                entries@.subrange(i as int, entries@.len() as int) == orig.subrange(
                    j,
                    orig.len() as int,
                ),
                self.entries@ == Seq::<(String, Worker)>::empty(),
                self.retired@ == old_retired + stopped_records(orig.subrange(0, j), p),
                p == named_in(names),
                names == name_set(valid_process_names@),
            decreases entries@.len() - i,
        {
            let ghost before = entries@;
            let ghost rest_a = before.subrange(i as int, before.len() as int);
            let ghost rest_b = orig.subrange(j, orig.len() as int);
            assert(rest_a.subrange(1, rest_a.len() as int) =~= before.subrange(
                i + 1,
                before.len() as int,
            ));
            assert(rest_b.subrange(1, rest_b.len() as int) =~= orig.subrange(
                j + 1,
                orig.len() as int,
            ));
            assert(before[i as int] == orig[j]) by {
                assert(before.subrange(i as int, before.len() as int)[0] == orig.subrange(
                    j,
                    orig.len() as int,
                )[0]);
            }
            assert(orig.subrange(0, j + 1).drop_last() =~= orig.subrange(0, j));
            assert(orig.subrange(0, j + 1).last() == orig[j]);
            let keep = contains_name(valid_process_names, &entries[i].0);
            proof {
                reveal_with_fuel(Seq::filter, 1);
                assert(keep == p(orig[j]));
            }
            if keep {
                i = i + 1;
                proof {
                    j = j + 1;
                    assert(entries@.subrange(0, i as int) =~= before.subrange(0, i - 1).push(
                        before[i - 1],
                    ));
                    assert(entries@.subrange(i as int, entries@.len() as int) =~= orig.subrange(
                        j,
                        orig.len() as int,
                    ));
                }
            } else {
                let mut removed = entries.remove(i);
                let _ = removed.1.stop();
                proof {
                    assert(entry_names(Seq::<(String, Worker)>::empty()) =~= Seq::<Seq<char>>::empty());
                    self.retired@ = self.retired@.push((removed.0@, removed.1@));
                    assert(self.retired@ =~= old_retired + stopped_records(
                        orig.subrange(0, j + 1),
                        p,
                    ));
                    j = j + 1;
                    assert(entries@.subrange(0, i as int) =~= before.subrange(0, i as int));
                    assert(entries@.subrange(i as int, entries@.len() as int) =~= orig.subrange(
                        j,
                        orig.len() as int,
                    ));
                }
            }
        }
        proof {
            assert(orig.subrange(0, j) =~= orig);
            assert(entries@ =~= entries@.subrange(0, i as int));
            lemma_filter_unique(orig, p);
            lemma_table_filter(orig, names);
            lemma_stopped_records(orig, names);
        }
        self.entries = entries;
        proof {
            assert(self.retired@.subrange(0, old_retired.len() as int) =~= old_retired);
            assert(self.retired@.subrange(old_retired.len() as int, self.retired@.len() as int)
                =~= stopped_records(orig, p));
            assert(versions(self@) =~= versions(table(orig)).restrict(names));
        }
    }
}

/// Whether `name` is one of `names`.
pub fn contains_name(names: &Vec<String>, name: &String) -> (r: bool)
    ensures
        r == name_set(names@).contains(name@),
{
    let mut i: usize = 0;
    while i < names.len()
        invariant
            i <= names.len(),
            forall|j: int| 0 <= j < i ==> names@[j]@ != name@,
        decreases names.len() - i,
    {
        if names[i] == *name {
            proof {
                assert(names@.map_values(|n: String| n@)[i as int] == name@);
            }
            return true;
        }
        i = i + 1;
    }
    proof {
        let ns = names@.map_values(|n: String| n@);
        if name_set(names@).contains(name@) {
            let k = choose|k: int| 0 <= k < ns.len() && ns[k] == name@;
            assert(names@[k]@ == name@);
        }
    }
    false
}

/// The names of the processes of a configuration.
pub fn valid_process_names(configs: &Vec<ProcessConfig>) -> (r: Vec<String>)
    ensures
        name_set(r@) == config_names(configs@.map_values(|c: ProcessConfig| c@)),
{
    let ghost cs = configs@.map_values(|c: ProcessConfig| c@);
    let mut r: Vec<String> = Vec::new();
    let mut i: usize = 0;
    while i < configs.len()
        invariant
            i <= configs.len(),
            cs == configs@.map_values(|c: ProcessConfig| c@),
            r@.len() == i,
            forall|j: int| 0 <= j < i ==> r@[j]@ == configs@[j].name@,
        decreases configs.len() - i,
    {
        r.push(configs[i].name.clone());
        i = i + 1;
    }
    proof {
        assert(r@.map_values(|n: String| n@) =~= cs.map_values(|c: ProcessConfigView| c.name));
    }
    r
}

/// The table that a configuration asks for: process name to version, a
/// later process of a name taking the place of an earlier one.
pub open spec fn config_table(cs: Seq<ProcessConfigView>) -> Map<Seq<char>, Seq<char>>
    decreases cs.len(),
{
    if cs.len() == 0 {
        Map::empty()
    } else {
        config_table(cs.drop_last()).insert(cs.last().name, cs.last().version)
    }
}

/// The names of the processes of a configuration.
pub open spec fn config_names(cs: Seq<ProcessConfigView>) -> Set<Seq<char>> {
    cs.map_values(|c: ProcessConfigView| c.name).to_set()
}

/// The table has a worker that runs the version of `c` of its process.
pub open spec fn runs_version(m: Map<Seq<char>, Seq<char>>, c: ProcessConfigView) -> bool {
    m.contains_key(c.name) && m[c.name] == c.version
}

/// The table after the process of `c` is flushed: as it was where a worker
/// already runs that version (`begin_flush` says no start); otherwise
/// holding the new version where the process was started (`insert`), and
/// as it was where it was not (an older worker of that name, offered the stop
/// signal by `begin_flush`, then stays recorded).
pub open spec fn flushed(m: Map<Seq<char>, Seq<char>>, c: ProcessConfigView, started: bool) -> Map<
    Seq<char>,
    Seq<char>,
> {
    if runs_version(m, c) {
        m
    } else if started {
        m.insert(c.name, c.version)
    } else {
        m
    }
}

/// The table after every process of `cs` is flushed in turn and started
/// where it had to be.
pub open spec fn flushed_all(m: Map<Seq<char>, Seq<char>>, cs: Seq<ProcessConfigView>) -> Map<
    Seq<char>,
    Seq<char>,
>
    decreases cs.len(),
{
    if cs.len() == 0 {
        m
    } else {
        flushed(flushed_all(m, cs.drop_last()), cs.last(), true)
    }
}

/// A flush that starts the process leaves exactly the configured version,
/// whether or not one was running before; a process that already runs the
/// configured version is not restarted.
pub proof fn lemma_flush_installs(m: Map<Seq<char>, Seq<char>>, c: ProcessConfigView)
    ensures
        flushed(m, c, true) == m.insert(c.name, c.version),
        runs_version(m, c) ==> flushed(m, c, false) == m,
        runs_version(m.insert(c.name, c.version), c),
        flushed(m.insert(c.name, c.version), c, false) == m.insert(c.name, c.version),
{
    if runs_version(m, c) {
        assert(m.insert(c.name, c.version) =~= m);
    }
    assert(m.insert(c.name, c.version).insert(c.name, c.version) =~= m.insert(c.name, c.version));
}

proof fn lemma_flushed_all_union(m: Map<Seq<char>, Seq<char>>, cs: Seq<ProcessConfigView>)
    ensures
        flushed_all(m, cs) == m.union_prefer_right(config_table(cs)),
    decreases cs.len(),
{
    if cs.len() == 0 {
        assert(m.union_prefer_right(config_table(cs)) =~= m);
    } else {
        lemma_flushed_all_union(m, cs.drop_last());
        lemma_flush_installs(flushed_all(m, cs.drop_last()), cs.last());
        assert(flushed_all(m, cs) =~= m.union_prefer_right(config_table(cs)));
    }
}

proof fn lemma_config_table_dom(cs: Seq<ProcessConfigView>)
    ensures
        config_table(cs).dom() == config_names(cs),
    decreases cs.len(),
{
    let ns = cs.map_values(|c: ProcessConfigView| c.name);
    if cs.len() > 0 {
        let d = cs.drop_last();
        let nd = d.map_values(|c: ProcessConfigView| c.name);
        lemma_config_table_dom(d);
        assert(nd == ns.drop_last());
        assert forall|k: Seq<char>| config_table(cs).dom().contains(k) <==> config_names(
            cs,
        ).contains(k) by {
            if ns.contains(k) {
                let i = choose|i: int| 0 <= i < ns.len() && ns[i] == k;
                if i < cs.len() - 1 {
                    assert(nd[i] == k);
                }
            }
            if nd.contains(k) {
                let i = choose|i: int| 0 <= i < nd.len() && nd[i] == k;
                assert(ns[i] == k);
            }
            assert(ns[cs.len() - 1] == cs.last().name);
        }
        assert(config_table(cs).dom() =~= config_names(cs));
    } else {
        assert(config_table(cs).dom() =~= config_names(cs));
    }
}

/// Reconciliation: whatever workers a node had, once every process of the
/// configuration has been flushed (and started where it had to be) and the
/// workers of the processes that the configuration does not name have been
/// cleared, the node runs exactly the configured version of each
/// configured process, and nothing else.
pub proof fn lemma_reconcile(m: Map<Seq<char>, Seq<char>>, cs: Seq<ProcessConfigView>)
    ensures
        flushed_all(m, cs).restrict(config_names(cs)) == config_table(cs),
{
    lemma_flushed_all_union(m, cs);
    lemma_config_table_dom(cs);
    assert(flushed_all(m, cs).restrict(config_names(cs)) =~= config_table(cs));
}

/// Clearing again with the same names stops nobody: the records of a
/// second clear are empty, since no worker is left whose name is not kept.
pub proof fn lemma_second_clear_stops_nothing(
    m: Map<Seq<char>, WorkerView>,
    names: Set<Seq<char>>,
    r: Seq<(Seq<char>, WorkerView)>,
)
    requires
        cleared_records(m.restrict(names), names, r),
    ensures
        r.len() == 0,
{
    assert(m.restrict(names).dom().difference(names) =~= Set::<Seq<char>>::empty());
    if r.len() > 0 {
        assert(record_names(r)[0] == r[0].0);
        assert(record_names(r).to_set().contains(r[0].0));
    }
}

/// Clearing twice with the same names changes nothing the second time,
/// and clearing only ever removes workers.
pub proof fn lemma_clear_idempotent(m: Map<Seq<char>, Seq<char>>, names: Set<Seq<char>>)
    ensures
        m.restrict(names).restrict(names) == m.restrict(names),
        m.restrict(names).submap_of(m),
{
    assert(m.restrict(names).restrict(names) =~= m.restrict(names));
}

} // verus!
