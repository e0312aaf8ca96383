use vstd::prelude::*;

verus! {

/// The life-cycle state that a node reports for one of its processes.
#[derive(Debug, Clone, Copy, PartialEq, Eq, Structural)]
pub enum State {
    Init,
    Downloading,
    Ready,
    Running,
    Stopped,
}

/// What a node reports of one process.
#[derive(Debug, Clone)]
pub struct ProcessInfo {
    pub name: String,
    pub version: String,
    pub state: State,
}

/// The mathematical value of a `ProcessInfo`.
pub struct ProcessInfoView {
    pub name: Seq<char>,
    pub version: Seq<char>,
    pub state: State,
}

impl View for ProcessInfo {
    type V = ProcessInfoView;

    open spec fn view(&self) -> ProcessInfoView {
        ProcessInfoView { name: self.name@, version: self.version@, state: self.state }
    }
}

/// What a node reports of all its processes: the latest report of each
/// process, one per name.
#[derive(Debug, Clone)]
pub struct NodeInfo {
    pub process_info_list: Vec<ProcessInfo>,
}

impl View for NodeInfo {
    type V = Seq<ProcessInfoView>;

    open spec fn view(&self) -> Seq<ProcessInfoView> {
        self.process_info_list@.map_values(|p: ProcessInfo| p@)
    }
}

/// No two reports in `s` name the same process.
pub open spec fn names_unique(s: Seq<ProcessInfoView>) -> bool {
    forall|i: int, j: int| 0 <= i < s.len() && 0 <= j < s.len() && i != j ==> s[i].name != s[j].name
}

/// `s` holds a report of the process called `name`.
pub open spec fn has_name(s: Seq<ProcessInfoView>, name: Seq<char>) -> bool {
    exists|i: int| 0 <= i < s.len() && s[i].name == name
}

/// The list that recording `info` into `s` gives: the report of the same
/// name is replaced in place, or `info` is added at the end.
pub open spec fn recorded(s: Seq<ProcessInfoView>, info: ProcessInfoView) -> Seq<ProcessInfoView> {
    if has_name(s, info.name) {
        let i = choose|i: int| 0 <= i < s.len() && s[i].name == info.name;
        s.update(i, info)
    } else {
        s.push(info)
    }
}

impl NodeInfo {
    /// A report that holds no process yet.
    pub fn new() -> (r: NodeInfo)
        ensures
            r@ == Seq::<ProcessInfoView>::empty(),
    {
        NodeInfo { process_info_list: Vec::new() }
    }

    /// Records the latest report of one process: it takes the place of the
    /// earlier report of the same name, if there is one.
    pub fn record(&mut self, info: ProcessInfo)
        requires
            names_unique(old(self)@),
        ensures
            final(self)@ == recorded(old(self)@, info@),
            names_unique(final(self)@),
    {
        let ghost old_view = self@;
        let n = self.process_info_list.len();
        let mut i: usize = 0;
        while i < n
            invariant
                n == self.process_info_list.len(),
                self@ == old_view,
                old_view == old(self)@,
                names_unique(old_view),
                i <= n,
                forall|j: int| 0 <= j < i ==> old_view[j].name != info.name@,
            decreases n - i,
        {
            if self.process_info_list[i].name == info.name {
                proof {
                    assert(old_view[i as int] == self.process_info_list@[i as int]@);
                    assert(has_name(old_view, info.name@));
                    let k = choose|k: int| 0 <= k < old_view.len() && old_view[k].name == info.name@;
                    assert(k == i as int);
                }
                let ghost v = info@;
                self.process_info_list.set(i, info);
                proof {
                    assert(self@ =~= old_view.update(i as int, v));
                    assert(names_unique(old_view));
                    assert(recorded(old_view, v) == old_view.update(i as int, v));
                }
                return;
            }
            proof {
                assert(old_view[i as int] == self.process_info_list@[i as int]@);
            }
            i = i + 1;
        }
        let ghost v = info@;
        self.process_info_list.push(info);
        proof {
            assert(self@ =~= old_view.push(v));
        }
    }
}

/// Recording a report keeps one report per process, and a lookup by the
/// recorded name afterwards finds exactly that report, while the reports of
/// the other processes are unchanged.
pub proof fn lemma_record_replaces(s: Seq<ProcessInfoView>, info: ProcessInfoView)
    requires
        names_unique(s),
    ensures
        names_unique(recorded(s, info)),
        has_name(recorded(s, info), info.name),
        forall|i: int|
            0 <= i < recorded(s, info).len() && recorded(s, info)[i].name == info.name
                ==> recorded(s, info)[i] == info,
        forall|n: Seq<char>|
            n != info.name ==> (has_name(recorded(s, info), n) <==> has_name(s, n)),
        recorded(s, info).len() == if has_name(s, info.name) { s.len() } else { s.len() + 1 },
{
    let r = recorded(s, info);
    if has_name(s, info.name) {
        let k = choose|i: int| 0 <= i < s.len() && s[i].name == info.name;
        assert(r[k] == info);
        assert forall|n: Seq<char>| n != info.name implies (has_name(r, n) <==> has_name(s, n)) by {
            if has_name(s, n) {
                let j = choose|j: int| 0 <= j < s.len() && s[j].name == n;
                assert(r[j] == s[j]);
            }
            if has_name(r, n) {
                let j = choose|j: int| 0 <= j < r.len() && r[j].name == n;
                assert(s[j] == r[j]);
            }
        }
    } else {
        assert(r[s.len() as int] == info);
        assert forall|n: Seq<char>| n != info.name implies (has_name(r, n) <==> has_name(s, n)) by {
            if has_name(s, n) {
                let j = choose|j: int| 0 <= j < s.len() && s[j].name == n;
                assert(r[j] == s[j]);
            }
            if has_name(r, n) {
                let j = choose|j: int| 0 <= j < r.len() && r[j].name == n;
                assert(s[j] == r[j]);
            }
        }
    }
}

/// The list that recording each report of `ms` in turn gives, starting
/// from a list that holds no process.
pub open spec fn recorded_all(ms: Seq<ProcessInfoView>) -> Seq<ProcessInfoView>
    decreases ms.len(),
{
    if ms.len() == 0 {
        Seq::empty()
    } else {
        recorded(recorded_all(ms.drop_last()), ms.last())
    }
}

/// `ms[j]` is the last report in `ms` of its process.
pub open spec fn is_latest(ms: Seq<ProcessInfoView>, j: int) -> bool {
    &&& 0 <= j < ms.len()
    &&& forall|k: int| j < k < ms.len() ==> #[trigger] ms[k].name != ms[j].name
}

/// After a run of reports `ms`, recorded one by one from an empty list, the
/// list holds one report per process that `ms` names and no other, and the
/// report it holds of each process is the last one of that process in `ms`.
pub proof fn lemma_recorded_all(ms: Seq<ProcessInfoView>)
    ensures
        names_unique(recorded_all(ms)),
        forall|n: Seq<char>| has_name(recorded_all(ms), n) <==> has_name(ms, n),
        forall|i: int|
            0 <= i < recorded_all(ms).len() ==> exists|j: int|
                #![trigger is_latest(ms, j)]
                is_latest(ms, j) && #[trigger] recorded_all(ms)[i] == ms[j],
        forall|j: int|
            #[trigger] is_latest(ms, j) ==> exists|i: int|
                0 <= i < recorded_all(ms).len() && recorded_all(ms)[i] == ms[j],
    decreases ms.len(),
{
    if ms.len() > 0 {
        let p = ms.drop_last();
        let x = ms.last();
        let rp = recorded_all(p);
        let r = recorded_all(ms);
        lemma_recorded_all(p);
        lemma_record_replaces(rp, x);
        assert(r == recorded(rp, x));
        let last = ms.len() - 1;
        assert(ms[last] == x);
        // Outside the slot of `x`'s name, recording leaves the list as it was.
        assert forall|i: int| 0 <= i < r.len() && r[i].name != x.name implies i < rp.len()
            && r[i] == rp[i] by {
            if has_name(rp, x.name) {
                let k = choose|k: int| 0 <= k < rp.len() && rp[k].name == x.name;
                assert(r == rp.update(k, x));
            } else {
                assert(r == rp.push(x));
            }
        }
        assert forall|i: int| 0 <= i < rp.len() && rp[i].name != x.name implies i < r.len()
            && r[i] == rp[i] by {
            if has_name(rp, x.name) {
                let k = choose|k: int| 0 <= k < rp.len() && rp[k].name == x.name;
                assert(r == rp.update(k, x));
            } else {
                assert(r == rp.push(x));
            }
        }
        assert forall|n: Seq<char>| has_name(r, n) <==> has_name(ms, n) by {
            if n == x.name {
                assert(has_name(ms, n)) by {
                    assert(ms[last].name == n);
                }
            } else {
                if has_name(p, n) {
                    let j = choose|j: int| 0 <= j < p.len() && p[j].name == n;
                    assert(ms[j] == p[j]);
                }
                if has_name(ms, n) {
                    let j = choose|j: int| 0 <= j < ms.len() && ms[j].name == n;
                    assert(j != last);
                    assert(p[j] == ms[j]);
                }
            }
        }
        assert forall|i: int| 0 <= i < r.len() implies exists|j: int|
            #![trigger is_latest(ms, j)]
            is_latest(ms, j) && #[trigger] r[i] == ms[j] by {
            if r[i].name == x.name {
                assert(is_latest(ms, last));
            } else {
                assert(r[i] == rp[i]);
                let j = choose|j: int| #[trigger] is_latest(p, j) && rp[i] == p[j];
                assert(p[j] == ms[j]);
                assert forall|k: int| j < k < ms.len() implies #[trigger] ms[k].name != ms[j].name by {
                    if k < last {
                        assert(ms[k] == p[k]);
                        assert(p[k].name != p[j].name);
                    }
                }
                assert(is_latest(ms, j));
            }
        }
        assert forall|j: int| #[trigger] is_latest(ms, j) implies exists|i: int|
            0 <= i < r.len() && r[i] == ms[j] by {
            if j == last {
                let i = choose|i: int| 0 <= i < r.len() && r[i].name == x.name;
                assert(r[i] == x);
            } else {
                assert(ms[last].name != ms[j].name);
                assert(p[j] == ms[j]);
                assert forall|k: int| j < k < p.len() implies #[trigger] p[k].name != p[j].name by {
                    assert(p[k] == ms[k]);
                    assert(ms[k].name != ms[j].name);
                }
                assert(is_latest(p, j));
                let i = choose|i: int| 0 <= i < rp.len() && rp[i] == p[j];
                assert(rp[i].name != x.name);
                assert(r[i] == rp[i]);
            }
        }
    }
}

} // verus!
