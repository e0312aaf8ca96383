use vstd::prelude::*;
use zookeeper::{Acl, CreateMode, Stat, ZooKeeper};

use crate::paths::{
    ancestry_depth, lemma_ancestry_depth_bound, lemma_parent_shorter, parent_of, parent_path,
    slash_count,
};

verus! {

#[verifier::external_type_specification]
#[verifier::external_body]
pub struct ExZooKeeper(ZooKeeper);

#[verifier::external_type_specification]
#[verifier::external_body]
pub struct ExStat(Stat);

/// The code of ZooKeeper's "bad arguments" error, the one that the client
/// gives for a path that it refuses without asking the server.
pub const BAD_ARGUMENTS: i32 = -8;

/// How long, in seconds, a session may go without hearing from a server.
pub const SESSION_TIMEOUT_SECS: u64 = 15;

/// The code of ZooKeeper's "system error", given where no session could be
/// opened at all.
pub const SYSTEM_ERROR: i32 = -1;

/// An error that ZooKeeper reported, by its numeric code.
#[derive(Debug, Clone, Copy, PartialEq, Eq, Structural)]
pub struct ZkFailure {
    pub code: i32,
}

/// A path that the ZooKeeper client refuses before it sends anything: the
/// empty path, and a path of more than one character that ends in a slash.
pub open spec fn rejected_path(p: Seq<char>) -> bool {
    p.len() == 0 || (p.len() > 1 && p[p.len() - 1] == '/')
}

/// How long a node that is created lives: until it is deleted.
#[derive(Debug, Clone, Copy, PartialEq, Eq, Structural)]
pub enum NodeMode {
    Persistent,
}

/// One request that a session made of ZooKeeper, with what came back
/// (an error by its code).
pub enum ZkCall {
    Create { path: Seq<char>, result: Result<Seq<char>, i32> },
    Exists { path: Seq<char>, result: Result<bool, i32> },
    Delete { path: Seq<char>, result: Result<(), i32> },
    GetData { path: Seq<char>, result: Result<Seq<u8>, i32> },
    SetData { path: Seq<char>, data: Seq<u8>, result: Result<(), i32> },
    GetChildren { path: Seq<char>, result: Result<Seq<Seq<char>>, i32> },
}

/// The path that a request names.
pub open spec fn call_path(c: ZkCall) -> Seq<char> {
    match c {
        ZkCall::Create { path, .. } => path,
        ZkCall::Exists { path, .. } => path,
        ZkCall::Delete { path, .. } => path,
        ZkCall::GetData { path, .. } => path,
        ZkCall::SetData { path, .. } => path,
        ZkCall::GetChildren { path, .. } => path,
    }
}

/// A ZooKeeper session, with the requests it has made so far.
pub struct ZkClient {
    zk: ZooKeeper,
    calls: Ghost<Seq<ZkCall>>,
}

impl ZkClient {
    /// The requests that this session has made, in order, with their
    /// outcomes.
    pub closed spec fn calls(&self) -> Seq<ZkCall> {
        self.calls@
    }
}

/// Calls `ZooKeeper::create` with empty data, the open ACL and the
/// matching `CreateMode`, and records the request. Claimed: a rejected path
/// gives the bad-arguments code; otherwise the outcome is the server's.
#[verifier::external_body]
fn zk_create(client: &mut ZkClient, path: &str, mode: NodeMode) -> (r: Result<String, i32>)
    ensures
        final(client).calls() == old(client).calls().push(
            ZkCall::Create {
                path: path@,
                result: match r {
                    Ok(p) => Ok(p@),
                    Err(c) => Err(c),
                },
            },
        ),
        rejected_path(path@) ==> (r is Err && r->Err_0 == BAD_ARGUMENTS),
{
    let mode = match mode {
        NodeMode::Persistent => CreateMode::Persistent,
    };
    client.zk.create(path, vec![], Acl::open_unsafe().clone(), mode).map_err(|e| e as i32)
}

/// Calls `ZooKeeper::exists` without a watch, and records the request and
/// whether a node was found. Claimed: a rejected path gives the
/// bad-arguments code; otherwise the outcome is the server's.
#[verifier::external_body]
fn zk_exists(client: &mut ZkClient, path: &str) -> (r: Result<Option<Stat>, i32>)
    ensures
        final(client).calls() == old(client).calls().push(
            ZkCall::Exists {
                path: path@,
                result: match r {
                    Ok(stat) => Ok(stat is Some),
                    Err(c) => Err(c),
                },
            },
        ),
        rejected_path(path@) ==> (r is Err && r->Err_0 == BAD_ARGUMENTS),
{
    client.zk.exists(path, false).map_err(|e| e as i32)
}

/// Calls `ZooKeeper::delete` for any version, and records the request.
/// Claimed: a rejected path gives the bad-arguments code; otherwise the
/// outcome is the server's.
#[verifier::external_body]
fn zk_delete(client: &mut ZkClient, path: &str) -> (r: Result<(), i32>)
    ensures
        final(client).calls() == old(client).calls().push(ZkCall::Delete { path: path@, result: r }),
        rejected_path(path@) ==> (r is Err && r->Err_0 == BAD_ARGUMENTS),
{
    client.zk.delete(path, None).map_err(|e| e as i32)
}

/// Calls `ZooKeeper::get_data` without a watch, keeps the data, and records
/// the request. Claimed: a rejected path gives the bad-arguments code;
/// otherwise the outcome is the server's.
#[verifier::external_body]
fn zk_get_data(client: &mut ZkClient, path: &str) -> (r: Result<Vec<u8>, i32>)
    ensures
        final(client).calls() == old(client).calls().push(
            ZkCall::GetData {
                path: path@,
                result: match r {
                    Ok(d) => Ok(d@),
                    Err(c) => Err(c),
                },
            },
        ),
        rejected_path(path@) ==> (r is Err && r->Err_0 == BAD_ARGUMENTS),
{
    client.zk.get_data(path, false).map(|(data, _)| data).map_err(|e| e as i32)
}

/// Calls `ZooKeeper::set_data` for any version, and records the request
/// with the data written. Claimed: a rejected path gives the bad-arguments
/// code; otherwise the outcome is the server's.
#[verifier::external_body]
fn zk_set_data(client: &mut ZkClient, path: &str, data: Vec<u8>) -> (r: Result<Stat, i32>)
    ensures
        final(client).calls() == old(client).calls().push(
            ZkCall::SetData {
                path: path@,
                data: data@,
                result: match r {
                    Ok(_) => Ok(()),
                    Err(c) => Err(c),
                },
            },
        ),
        rejected_path(path@) ==> (r is Err && r->Err_0 == BAD_ARGUMENTS),
{
    client.zk.set_data(path, data, None).map_err(|e| e as i32)
}

/// Calls `ZooKeeper::get_children` without a watch, and records the
/// request. Claimed: a rejected path gives the bad-arguments code;
/// otherwise the outcome is the server's.
#[verifier::external_body]
fn zk_get_children(client: &mut ZkClient, path: &str) -> (r: Result<Vec<String>, i32>)
    ensures
        final(client).calls() == old(client).calls().push(
            ZkCall::GetChildren {
                path: path@,
                result: match r {
                    Ok(v) => Ok(v.deep_view()),
                    Err(c) => Err(c),
                },
            },
        ),
        rejected_path(path@) ==> (r is Err && r->Err_0 == BAD_ARGUMENTS),
{
    client.zk.get_children(path, false).map_err(|e| e as i32)
}

/// The outcome of a request that gives nothing back, by error code.
pub open spec fn unit_outcome<T>(r: Result<T, ZkFailure>) -> Result<(), i32> {
    match r {
        Ok(_) => Ok(()),
        Err(f) => Err(f.code),
    }
}

/// The requests that making sure of `path` makes, given what came back:
/// `Some` of the outcome where `t` is exactly that sequence, `None` where
/// it is not. The empty path needs no request. Otherwise the node is
/// looked for; where it is found that is all; where it is not, its parent
/// is made sure of first, and where that fails its error is the outcome;
/// otherwise the node is created, and the creation gives the outcome.
pub open spec fn ensure_trace(path: Seq<char>, t: Seq<ZkCall>) -> Option<Result<(), i32>>
    decreases path.len(),
{
    if path.len() == 0 {
        if t.len() == 0 {
            Some(Ok(()))
        } else {
            None
        }
    } else if t.len() == 0 {
        None
    } else {
        match t[0] {
            ZkCall::Exists { path: p, result } => {
                if p != path {
                    None
                } else if result == Ok::<bool, i32>(true) {
                    if t.len() == 1 {
                        Some(Ok(()))
                    } else {
                        None
                    }
                } else {
                    proof {
                        lemma_parent_shorter(path);
                    }
                    let rest = t.subrange(1, t.len() as int);
                    let created = rest.len() > 0 && call_path(rest.last()) == path && (
                    rest.last() is Create) && ensure_trace(parent_of(path), rest.drop_last())
                        == Some(Ok::<(), i32>(()));
                    if created {
                        match rest.last() {
                            ZkCall::Create { result, .. } => Some(
                                match result {
                                    Ok(_) => Ok(()),
                                    Err(e) => Err(e),
                                },
                            ),
                            _ => None,
                        }
                    } else {
                        match ensure_trace(parent_of(path), rest) {
                            Some(Err(e)) => Some(Err(e)),
                            _ => None,
                        }
                    }
                }
            },
            _ => None,
        }
    }
}

/// Making sure of `path` only looks nodes up and creates them, each on a
/// path no longer than `path`, and it creates parents before children:
/// each creation names a longer path than every creation before it. A
/// node that is found is not created.
pub proof fn lemma_ensure_trace_paths(path: Seq<char>, t: Seq<ZkCall>)
    requires
        ensure_trace(path, t) is Some,
    ensures
        forall|i: int| 0 <= i < t.len() ==> call_path(#[trigger] t[i]).len() <= path.len(),
        forall|i: int| 0 <= i < t.len() ==> (#[trigger] t[i] is Exists || t[i] is Create),
        forall|i: int, j: int|
            0 <= i < j < t.len() && #[trigger] t[i] is Create && #[trigger] t[j] is Create
                ==> call_path(t[i]).len() < call_path(t[j]).len(),
        path.len() > 0 && t[0]->Exists_result == Ok::<bool, i32>(true) ==> t.len() == 1,
    decreases path.len(),
{
    if path.len() > 0 {
        lemma_parent_shorter(path);
        let rest = t.subrange(1, t.len() as int);
        if t.len() > 1 {
            let parent = parent_of(path);
            let created = rest.len() > 0 && call_path(rest.last()) == path && (rest.last() is Create)
                && ensure_trace(parent, rest.drop_last()) == Some(Ok::<(), i32>(()));
            if created {
                let mid = rest.drop_last();
                lemma_ensure_trace_paths(parent, mid);
                assert forall|i: int| 1 <= i < t.len() - 1 implies t[i] == mid[i - 1] by {}
                assert(t[t.len() - 1] == rest.last());
                assert forall|i: int| 0 <= i < t.len() implies call_path(#[trigger] t[i]).len()
                    <= path.len() by {
                    if 1 <= i < t.len() - 1 {
                        assert(t[i] == mid[i - 1]);
                    }
                }
                assert forall|i: int| 0 <= i < t.len() implies (#[trigger] t[i] is Exists
                    || t[i] is Create) by {
                    if 1 <= i < t.len() - 1 {
                        assert(t[i] == mid[i - 1]);
                    }
                }
                assert forall|i: int, j: int|
                    0 <= i < j < t.len() && #[trigger] t[i] is Create && #[trigger] t[j] is Create
                    implies call_path(t[i]).len() < call_path(t[j]).len() by {
                    if i >= 1 {
                        assert(t[i] == mid[i - 1]);
                    }
                    if j < t.len() - 1 {
                        assert(t[j] == mid[j - 1]);
                    }
                }
            } else {
                lemma_ensure_trace_paths(parent, rest);
                assert forall|i: int| 1 <= i < t.len() implies t[i] == rest[i - 1] by {}
                assert forall|i: int| 0 <= i < t.len() implies call_path(#[trigger] t[i]).len()
                    <= path.len() by {
                    if 1 <= i {
                        assert(t[i] == rest[i - 1]);
                    }
                }
                assert forall|i: int| 0 <= i < t.len() implies (#[trigger] t[i] is Exists
                    || t[i] is Create) by {
                    if 1 <= i {
                        assert(t[i] == rest[i - 1]);
                    }
                }
                assert forall|i: int, j: int|
                    0 <= i < j < t.len() && #[trigger] t[i] is Create && #[trigger] t[j] is Create
                    implies call_path(t[i]).len() < call_path(t[j]).len() by {
                    assert(t[j] == rest[j - 1]);
                    if i >= 1 {
                        assert(t[i] == rest[i - 1]);
                    }
                }
            }
        }
    }
}

/// Request `c` shows that a node exists at `p`: a lookup of `p` found it,
/// or a creation of `p` succeeded.
pub open spec fn establishes(c: ZkCall, p: Seq<char>) -> bool {
    ||| c == (ZkCall::Exists { path: p, result: Ok::<bool, i32>(true) })
    ||| (c is Create && call_path(c) == p && c->Create_result is Ok)
}

/// Request `c` is a creation that ZooKeeper refused with error `e`.
pub open spec fn creation_failed_with(c: ZkCall, e: i32) -> bool {
    c is Create && c->Create_result == Err::<Seq<char>, i32>(e)
}

/// In the requests `t`, no node is created before its parent is known to
/// exist: every creation whose path has a parent comes after a request that
/// establishes that parent.
pub open spec fn parents_first(t: Seq<ZkCall>) -> bool {
    forall|i: int|
        #![trigger t[i]]
        0 <= i < t.len() && t[i] is Create && parent_of(call_path(t[i])).len() > 0 ==> exists|j: int|
            0 <= j < i && #[trigger] establishes(t[j], parent_of(call_path(t[i])))
}

/// What making sure of a path does, whatever ZooKeeper answers: it starts
/// by looking the path itself up, it creates no node before its parent is
/// known to exist, and where it succeeds the path is known to exist at the
/// end: it was found or created. Where it fails, the error is one that
/// ZooKeeper gave to one of its creations.
pub proof fn lemma_ensure_trace_laws(path: Seq<char>, t: Seq<ZkCall>)
    requires
        ensure_trace(path, t) is Some,
    ensures
        ensure_trace(path, t) matches Some(Err(e)) ==> exists|i: int|
            0 <= i < t.len() && #[trigger] creation_failed_with(t[i], e),
        parents_first(t),
        path.len() > 0 ==> t.len() > 0 && t[0] is Exists && call_path(t[0]) == path,
        path.len() > 0 && ensure_trace(path, t) == Some(Ok::<(), i32>(())) ==> exists|i: int|
            0 <= i < t.len() && #[trigger] establishes(t[i], path),
    decreases path.len(),
{
    if path.len() > 0 {
        lemma_parent_shorter(path);
        let parent = parent_of(path);
        if t[0]->Exists_result == Ok::<bool, i32>(true) {
            assert(establishes(t[0], path));
        } else {
            let rest = t.subrange(1, t.len() as int);
            let created = rest.len() > 0 && call_path(rest.last()) == path && (rest.last() is Create)
                && ensure_trace(parent, rest.drop_last()) == Some(Ok::<(), i32>(()));
            if created {
                let mid = rest.drop_last();
                let n = t.len() - 1;
                lemma_ensure_trace_laws(parent, mid);
                assert forall|i: int| 1 <= i < n implies t[i] == mid[i - 1] by {}
                assert(t[n] == rest.last());
                assert forall|i: int|
                    #![trigger t[i]]
                    0 <= i < t.len() && t[i] is Create && parent_of(call_path(t[i])).len() > 0
                        implies exists|j: int|
                        0 <= j < i && #[trigger] establishes(t[j], parent_of(call_path(t[i]))) by {
                    if i < n {
                        assert(t[i] == mid[i - 1]);
                        let k = choose|k: int|
                            0 <= k < i - 1 && #[trigger] establishes(
                                mid[k],
                                parent_of(call_path(mid[i - 1])),
                            );
                        assert(t[k + 1] == mid[k]);
                    } else {
                        assert(call_path(t[i]) == path);
                        let k = choose|k: int| 0 <= k < mid.len() && #[trigger] establishes(mid[k], parent);
                        assert(t[k + 1] == mid[k]);
                    }
                }
                if ensure_trace(path, t) == Some(Ok::<(), i32>(())) {
                    assert(establishes(t[n], path));
                }
                if let Some(Err(e)) = ensure_trace(path, t) {
                    assert(creation_failed_with(t[n], e));
                }
            } else {
                lemma_ensure_trace_laws(parent, rest);
                assert forall|i: int| 1 <= i < t.len() implies t[i] == rest[i - 1] by {}
                assert forall|i: int|
                    #![trigger t[i]]
                    0 <= i < t.len() && t[i] is Create && parent_of(call_path(t[i])).len() > 0
                        implies exists|j: int|
                        0 <= j < i && #[trigger] establishes(t[j], parent_of(call_path(t[i]))) by {
                    assert(t[i] == rest[i - 1]);
                    let k = choose|k: int|
                        0 <= k < i - 1 && #[trigger] establishes(rest[k], parent_of(call_path(rest[i - 1])));
                    assert(t[k + 1] == rest[k]);
                }
                if let Some(Err(e)) = ensure_trace(path, t) {
                    let k = choose|k: int| 0 <= k < rest.len() && #[trigger] creation_failed_with(rest[k], e);
                    assert(t[k + 1] == rest[k]);
                }
            }
        }
    }
}

/// Making sure of `path` goes no deeper than the chain of its parents, which
/// is at most one longer than the number of slashes in `path`: at each
/// level one lookup and at most one creation is made.
pub proof fn lemma_ensure_trace_bound(path: Seq<char>, t: Seq<ZkCall>)
    requires
        ensure_trace(path, t) is Some,
    ensures
        t.len() <= 2 * ancestry_depth(path),
        ancestry_depth(path) <= slash_count(path) + 1,
    decreases path.len(),
{
    lemma_ancestry_depth_bound(path);
    if path.len() > 0 && t.len() > 1 {
        lemma_parent_shorter(path);
        let parent = parent_of(path);
        let rest = t.subrange(1, t.len() as int);
        let created = rest.len() > 0 && call_path(rest.last()) == path && (rest.last() is Create)
            && ensure_trace(parent, rest.drop_last()) == Some(Ok::<(), i32>(()));
        if created {
            lemma_ensure_trace_bound(parent, rest.drop_last());
        } else {
            lemma_ensure_trace_bound(parent, rest);
        }
    }
}

/// The requests that setting the data of `path` makes: making sure of it,
/// then the write, whose outcome counts only where making sure succeeded.
pub open spec fn set_data_trace(path: Seq<char>, data: Seq<u8>, t: Seq<ZkCall>) -> Option<
    Result<(), i32>,
> {
    if t.len() == 0 {
        None
    } else {
        match t.last() {
            ZkCall::SetData { path: p, data: d, result } => if p == path && d == data {
                match ensure_trace(path, t.drop_last()) {
                    Some(Err(e)) => Some(Err(e)),
                    Some(Ok(())) => Some(result),
                    None => None,
                }
            } else {
                None
            },
            _ => None,
        }
    }
}

/// What setting data does, whatever ZooKeeper answers: it first makes sure
/// of the path, starting with a lookup of it and creating no node before its
/// parent; it ends with exactly one write of the data to the path; and where
/// it succeeds, the write succeeded and the path was known to exist before
/// the write.
pub proof fn lemma_set_data_trace_laws(path: Seq<char>, data: Seq<u8>, t: Seq<ZkCall>)
    requires
        set_data_trace(path, data, t) is Some,
    ensures
        t.len() > 0,
        t.last() == (ZkCall::SetData { path: path, data: data, result: t.last()->SetData_result }),
        forall|i: int| 0 <= i < t.len() - 1 ==> !(#[trigger] t[i] is SetData),
        parents_first(t),
        path.len() > 0 ==> t.len() > 1 && t[0] is Exists && call_path(t[0]) == path,
        set_data_trace(path, data, t) == Some(Ok::<(), i32>(())) ==> t.last()->SetData_result == Ok::<
            (),
            i32,
        >(()),
        set_data_trace(path, data, t) == Some(Ok::<(), i32>(())) && path.len() > 0 ==> exists|i: int|
            0 <= i < t.len() - 1 && #[trigger] establishes(t[i], path),
        set_data_trace(path, data, t) matches Some(Err(e)) ==> t.last()->SetData_result == Err::<
            (),
            i32,
        >(e) || exists|i: int| 0 <= i < t.len() - 1 && #[trigger] creation_failed_with(t[i], e),
{
    let pre = t.drop_last();
    lemma_ensure_trace_laws(path, pre);
    lemma_ensure_trace_paths(path, pre);
    assert forall|i: int| 0 <= i < t.len() - 1 implies t[i] == pre[i] by {}
    assert forall|i: int| 0 <= i < t.len() - 1 implies !(#[trigger] t[i] is SetData) by {
        assert(t[i] == pre[i]);
    }
    assert forall|i: int|
        #![trigger t[i]]
        0 <= i < t.len() && t[i] is Create && parent_of(call_path(t[i])).len() > 0 implies exists|
        j: int,
    | 0 <= j < i && #[trigger] establishes(t[j], parent_of(call_path(t[i]))) by {
        assert(t[i] == pre[i]);
        let k = choose|k: int| 0 <= k < i && #[trigger] establishes(pre[k], parent_of(call_path(pre[i])));
        assert(t[k] == pre[k]);
    }
    if set_data_trace(path, data, t) == Some(Ok::<(), i32>(())) && path.len() > 0 {
        let k = choose|k: int| 0 <= k < pre.len() && #[trigger] establishes(pre[k], path);
        assert(t[k] == pre[k]);
    }
    if let Some(Err(e)) = ensure_trace(path, pre) {
        let k = choose|k: int| 0 <= k < pre.len() && #[trigger] creation_failed_with(pre[k], e);
        assert(t[k] == pre[k]);
    }
}

/// The requests that `after` made since `before`.
pub open spec fn new_calls(before: ZkClient, after: ZkClient) -> Seq<ZkCall> {
    after.calls().subrange(before.calls().len() as int, after.calls().len() as int)
}

/// `after` is the session `before`, having made more requests.
pub open spec fn continues(before: ZkClient, after: ZkClient) -> bool {
    &&& before.calls().len() <= after.calls().len()
    &&& after.calls().subrange(0, before.calls().len() as int) == before.calls()
}

impl ZkFailure {
    /// The library's error for a ZooKeeper error code.
    pub fn from_code(code: i32) -> (r: ZkFailure)
        ensures
            r.code == code,
    {
        ZkFailure { code }
    }
}

impl ZkClient {
    /// A client over a session that the caller opened with
    /// `ZooKeeper::connect`; it has made no request yet.
    pub fn from_session(zk: ZooKeeper) -> (r: ZkClient)
        ensures
            r.calls() == Seq::<ZkCall>::empty(),
    {
        ZkClient { zk, calls: Ghost(Seq::empty()) }
    }

    /// Creates a persistent node with no data at `path`.
    pub fn create(&mut self, path: &str) -> (r: Result<String, ZkFailure>)
        ensures
            final(self).calls() == old(self).calls().push(
                ZkCall::Create {
                    path: path@,
                    result: match r {
                        Ok(p) => Ok(p@),
                        Err(f) => Err(f.code),
                    },
                },
            ),
            rejected_path(path@) ==> r == Err::<String, ZkFailure>(ZkFailure { code: BAD_ARGUMENTS }),
    {
        match zk_create(self, path, NodeMode::Persistent) {
            Ok(created) => Ok(created),
            Err(code) => Err(ZkFailure::from_code(code)),
        }
    }

    /// Whether a node exists at `path`: exactly where the request found one
    /// (an error counts as no).
    pub fn node_exists(&mut self, path: &str) -> (r: bool)
        ensures
            final(self).calls() == old(self).calls().push(
                ZkCall::Exists {
                    path: path@,
                    result: final(self).calls().last()->Exists_result,
                },
            ),
            r == (final(self).calls().last()->Exists_result == Ok::<bool, i32>(true)),
            rejected_path(path@) ==> !r,
    {
        match zk_exists(self, path) {
            Ok(Some(_)) => true,
            Ok(None) => false,
            Err(_) => false,
        }
    }

    /// Makes sure that a node exists at `path`, creating it and its missing
    /// ancestors, parents first; the requests made and the outcome are those
    /// of `ensure_trace`. The empty path needs nothing. Each nested call
    /// handles the parent, so the calls nest at most `ancestry_depth(path)`
    /// deep, one more than the slashes of `path` at most.
    pub fn ensure(&mut self, path: &str) -> (r: Result<(), ZkFailure>)
        ensures
            continues(*old(self), *final(self)),
            ensure_trace(path@, new_calls(*old(self), *final(self))) == Some(unit_outcome(r)),
            path@.len() == 0 ==> r is Ok,
            path@.len() > 1 && path@[path@.len() - 1] == '/' ==> r is Err,
            path@.len() > 0 ==> new_calls(*old(self), *final(self)).len() > 0
                && new_calls(*old(self), *final(self))[0] is Exists && call_path(
                new_calls(*old(self), *final(self))[0],
            ) == path@,
            parents_first(new_calls(*old(self), *final(self))),
            r matches Err(f) ==> exists|i: int|
                0 <= i < new_calls(*old(self), *final(self)).len() && #[trigger] creation_failed_with(
                    new_calls(*old(self), *final(self))[i],
                    f.code,
                ),
            r is Ok && path@.len() > 0 ==> exists|i: int|
                0 <= i < new_calls(*old(self), *final(self)).len() && #[trigger] establishes(
                    new_calls(*old(self), *final(self))[i],
                    path@,
                ),
        decreases ancestry_depth(path@),
    {
        let ghost c0 = self.calls();
        if path.is_empty() {
            proof {
                assert(new_calls(*old(self), *self) =~= Seq::<ZkCall>::empty());
                assert(self.calls().subrange(0, c0.len() as int) =~= c0);
            }
            return Ok(());
        }
        let found = self.node_exists(path);
        let ghost c1 = self.calls();
        let ghost first = c1.last();
        proof {
            assert(c1.subrange(0, c0.len() as int) =~= c0);
            assert(c1.subrange(c0.len() as int, c1.len() as int) =~= seq![first]);
        }
        if found {
            proof {
                lemma_ensure_trace_laws(path@, new_calls(*old(self), *self));
            }
            return Ok(());
        }
        let parent = parent_path(path);
        proof {
            lemma_parent_shorter(path@);
        }
        let ensured = self.ensure(parent.as_str());
        let ghost c2 = self.calls();
        let ghost mid = c2.subrange(c1.len() as int, c2.len() as int);
        proof {
            lemma_ensure_trace_paths(parent@, mid);
            assert(c2.subrange(0, c0.len() as int) =~= c0);
            assert(c2.subrange(c0.len() as int, c2.len() as int) =~= seq![first] + mid);
            let t = seq![first] + mid;
            assert(t.subrange(1, t.len() as int) =~= mid);
        }
        match ensured {
            Ok(()) => {},
            Err(e) => {
                proof {
                    let t = seq![first] + mid;
                    let rest = t.subrange(1, t.len() as int);
                    if rest.len() > 0 {
                        assert(rest.last() == mid[mid.len() - 1]);
                        assert(call_path(mid[mid.len() - 1]).len() <= parent@.len());
                    }
                    lemma_ensure_trace_laws(path@, new_calls(*old(self), *self));
                }
                return Err(e);
            },
        }
        let created = self.create(path);
        let ghost c3 = self.calls();
        proof {
            let t = seq![first] + mid + seq![c3.last()];
            assert(c3.subrange(0, c0.len() as int) =~= c0);
            assert(c3.subrange(c0.len() as int, c3.len() as int) =~= t);
            let rest = t.subrange(1, t.len() as int);
            assert(rest =~= mid.push(c3.last()));
            assert(rest.drop_last() =~= mid);
            lemma_ensure_trace_laws(path@, new_calls(*old(self), *self));
        }
        match created {
            Ok(_) => Ok(()),
            Err(e) => Err(e),
        }
    }

    /// Deletes the node at `path`, whatever its version.
    pub fn delete(&mut self, path: &str) -> (r: Result<(), ZkFailure>)
        ensures
            final(self).calls() == old(self).calls().push(
                ZkCall::Delete { path: path@, result: unit_outcome(r) },
            ),
            rejected_path(path@) ==> r == Err::<(), ZkFailure>(ZkFailure { code: BAD_ARGUMENTS }),
    {
        let deleted = zk_delete(self, path);
        let r = match deleted {
            Ok(()) => Ok(()),
            Err(code) => Err(ZkFailure::from_code(code)),
        };
        proof {
            match deleted {
                Ok(u) => {
                    assert(u == ());
                    assert(unit_outcome(r) == Ok::<(), i32>(()));
                },
                Err(c) => {
                    assert(unit_outcome(r) == Err::<(), i32>(c));
                },
            }
        }
        r
    }

    /// The data of the node at `path`.
    pub fn get_data(&mut self, path: &str) -> (r: Result<Vec<u8>, ZkFailure>)
        ensures
            final(self).calls() == old(self).calls().push(
                ZkCall::GetData {
                    path: path@,
                    result: match r {
                        Ok(d) => Ok(d@),
                        Err(f) => Err(f.code),
                    },
                },
            ),
            rejected_path(path@) ==> r == Err::<Vec<u8>, ZkFailure>(ZkFailure { code: BAD_ARGUMENTS }),
    {
        match zk_get_data(self, path) {
            Ok(data) => Ok(data),
            Err(code) => Err(ZkFailure::from_code(code)),
        }
    }

    /// Makes sure that the node at `path` exists, then sets its data. The
    /// write is attempted even where making sure failed; the error of
    /// making sure, if any, is the one returned, otherwise the write's.
    pub fn set_data(&mut self, path: &str, data: Vec<u8>) -> (r: Result<Stat, ZkFailure>)
        ensures
            continues(*old(self), *final(self)),
            set_data_trace(path@, data@, new_calls(*old(self), *final(self))) == Some(
                unit_outcome(r),
            ),
            final(self).calls().last() == (ZkCall::SetData {
                path: path@,
                data: data@,
                result: final(self).calls().last()->SetData_result,
            }),
            r is Ok ==> final(self).calls().last()->SetData_result == Ok::<(), i32>(()),
            rejected_path(path@) ==> r is Err,
            path@.len() > 0 ==> new_calls(*old(self), *final(self)).len() > 1
                && new_calls(*old(self), *final(self))[0] is Exists && call_path(
                new_calls(*old(self), *final(self))[0],
            ) == path@,
            parents_first(new_calls(*old(self), *final(self))),
            r matches Err(f) ==> final(self).calls().last()->SetData_result == Err::<(), i32>(f.code)
                || exists|i: int|
                0 <= i < new_calls(*old(self), *final(self)).len() - 1
                    && #[trigger] creation_failed_with(new_calls(*old(self), *final(self))[i], f.code),
            r is Ok && path@.len() > 0 ==> exists|i: int|
                0 <= i < new_calls(*old(self), *final(self)).len() - 1 && #[trigger] establishes(
                    new_calls(*old(self), *final(self))[i],
                    path@,
                ),
    {
        let ghost c0 = self.calls();
        let ghost bytes = data@;
        let ensured = self.ensure(path);
        let ghost c1 = self.calls();
        let written = zk_set_data(self, path, data);
        let ghost c2 = self.calls();
        proof {
            let t = c2.subrange(c0.len() as int, c2.len() as int);
            assert(c2.subrange(0, c0.len() as int) =~= c0);
            assert(t.drop_last() =~= c1.subrange(c0.len() as int, c1.len() as int));
            assert(t.last() == c2.last());
            lemma_set_data_trace_laws(path@, bytes, t);
        }
        match ensured {
            Err(e) => Err(e),
            Ok(()) => match written {
                Ok(stat) => Ok(stat),
                Err(code) => Err(ZkFailure::from_code(code)),
            },
        }
    }

    /// Sets the data of the node at `path`, which must exist: one write
    /// request, nothing else.
    pub fn write_data(&mut self, path: &str, data: Vec<u8>) -> (r: Result<Stat, ZkFailure>)
        ensures
            final(self).calls() == old(self).calls().push(
                ZkCall::SetData { path: path@, data: data@, result: unit_outcome(r) },
            ),
            rejected_path(path@) ==> r is Err,
    {
        match zk_set_data(self, path, data) {
            Ok(stat) => Ok(stat),
            Err(code) => Err(ZkFailure::from_code(code)),
        }
    }

    /// The names of the children of the node at `path`.
    pub fn get_children(&mut self, path: &str) -> (r: Result<Vec<String>, ZkFailure>)
        ensures
            final(self).calls() == old(self).calls().push(
                ZkCall::GetChildren {
                    path: path@,
                    result: match r {
                        Ok(v) => Ok(v.deep_view()),
                        Err(f) => Err(f.code),
                    },
                },
            ),
            rejected_path(path@) ==> r == Err::<Vec<String>, ZkFailure>(
                ZkFailure { code: BAD_ARGUMENTS },
            ),
    {
        match zk_get_children(self, path) {
            Ok(children) => Ok(children),
            Err(code) => Err(ZkFailure::from_code(code)),
        }
    }
}

} // verus!
