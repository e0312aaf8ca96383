use vstd::prelude::*;
use vstd::string::*;

use crate::manager::{read_text, text_spec};
use crate::paths::{child_path, zk_node_path, ZK_CONFIG_PATH, ZK_NODE_PATH};
use crate::zk::{
    call_path, continues, creation_failed_with, establishes, new_calls, parents_first, set_data_trace, unit_outcome, ZkCall,
    ZkClient, ZkFailure,
};

verus! {

/// How the manager's HTTP service answers a request.
#[derive(Debug, Clone, Copy, PartialEq, Eq, Structural)]
pub enum Status {
    Success,
    NotFound,
    InternalServerError,
}

/// The answer to a request for something that was looked up: the thing
/// where it was found, "not found" otherwise.
pub fn found_reply<T>(found: Option<T>) -> (r: Result<T, Status>)
    ensures
        match found {
            Some(v) => r == Ok::<T, Status>(v),
            None => r == Err::<T, Status>(Status::NotFound),
        },
{
    match found {
        Some(v) => Ok(v),
        None => Err(Status::NotFound),
    }
}

/// The answer to a request that wrote something: success where the write
/// succeeded, an internal error otherwise.
pub fn written_reply(written: bool) -> (r: Status)
    ensures
        r == if written {
            Status::Success
        } else {
            Status::InternalServerError
        },
{
    if written {
        Status::Success
    } else {
        Status::InternalServerError
    }
}

/// The answer to the opening of a session for one request: the session,
/// or an internal error exactly where none could be opened.
pub fn session_reply(opened: Result<ZkClient, ZkFailure>) -> (r: Result<ZkClient, Status>)
    ensures
        match opened {
            Ok(c) => r == Ok::<ZkClient, Status>(c),
            Err(_) => r == Err::<ZkClient, Status>(Status::InternalServerError),
        },
{
    match opened {
        Ok(zk_client) => Ok(zk_client),
        Err(_) => Err(Status::InternalServerError),
    }
}

/// The answer that a read's outcome gives: its text, or "not found" where
/// the read failed or the data are not valid UTF-8.
pub open spec fn text_answer(result: Result<Seq<u8>, i32>) -> Result<Seq<char>, Status> {
    match text_spec(result) {
        Some(t) => Ok(t),
        None => Err(Status::NotFound),
    }
}

/// The text of an answer.
pub open spec fn answer_text(r: Result<String, Status>) -> Result<Seq<char>, Status> {
    match r {
        Ok(s) => Ok(s@),
        Err(s) => Err(s),
    }
}

/// The text stored at `path`: one read of that node is made and nothing
/// else; the answer is its text, or "not found".
pub fn fetch_text(zk_client: &mut ZkClient, path: &str) -> (r: Result<String, Status>)
    ensures
        final(zk_client).calls() == old(zk_client).calls().push(
            ZkCall::GetData {
                path: path@,
                result: final(zk_client).calls().last()->GetData_result,
            },
        ),
        answer_text(r) == text_answer(final(zk_client).calls().last()->GetData_result),
{
    found_reply(read_text(zk_client, path))
}

/// The names of the registered nodes: one listing of the node directory is
/// made and nothing else; the answer is what it lists, or "not found".
pub fn list_nodes(zk_client: &mut ZkClient) -> (r: Result<Vec<String>, Status>)
    ensures
        final(zk_client).calls() == old(zk_client).calls().push(
            ZkCall::GetChildren {
                path: ZK_NODE_PATH@,
                result: final(zk_client).calls().last()->GetChildren_result,
            },
        ),
        match final(zk_client).calls().last()->GetChildren_result {
            Ok(names) => r is Ok && r->Ok_0.deep_view() == names,
            Err(_) => r == Err::<Vec<String>, Status>(Status::NotFound),
        },
{
    found_reply(zk_client.get_children(ZK_NODE_PATH).ok())
}

/// Stores `data` at `path`, creating the node where it is missing: the
/// requests are those of setting the data, and the answer is success
/// exactly where that succeeded, an internal error otherwise.
pub fn store_data(zk_client: &mut ZkClient, path: &str, data: Vec<u8>) -> (r: Status)
    ensures
        continues(*old(zk_client), *final(zk_client)),
        set_data_trace(path@, data@, new_calls(*old(zk_client), *final(zk_client))) is Some,
        r == if set_data_trace(path@, data@, new_calls(*old(zk_client), *final(zk_client)))->0 is Ok {
            Status::Success
        } else {
            Status::InternalServerError
        },
        r == Status::Success ==> final(zk_client).calls().last() == (ZkCall::SetData {
            path: path@,
            data: data@,
            result: Ok::<(), i32>(()),
        }),
        parents_first(new_calls(*old(zk_client), *final(zk_client))),
        r == Status::Success && path@.len() > 0 ==> exists|i: int|
            0 <= i < new_calls(*old(zk_client), *final(zk_client)).len() - 1
                && #[trigger] establishes(new_calls(*old(zk_client), *final(zk_client))[i], path@),
{
    written_reply(zk_client.set_data(path, data).is_ok())
}

/// Deletes the registration of the node called `node_name`: one deletion
/// of its node is made and nothing else, and whatever its outcome the
/// answer is success.
pub fn remove_node(zk_client: &mut ZkClient, node_name: &str) -> (r: Status)
    ensures
        final(zk_client).calls() == old(zk_client).calls().push(
            ZkCall::Delete {
                path: child_path(ZK_NODE_PATH@, node_name@),
                result: final(zk_client).calls().last()->Delete_result,
            },
        ),
        r == Status::Success,
{
    let path = zk_node_path(node_name);
    let _ = zk_client.delete(path.as_str());
    Status::Success
}

/// One write of `data` to the configuration node, and its outcome.
pub open spec fn written_once(data: Seq<u8>, t: Seq<ZkCall>) -> Option<Result<(), i32>> {
    if t.len() == 1 && t[0] is SetData && call_path(t[0]) == ZK_CONFIG_PATH@ && t[0]->SetData_data
        == data {
        Some(t[0]->SetData_result)
    } else {
        None
    }
}

/// The requests that writing a configuration makes: the configuration node
/// is looked up; where it is not found it is created, and a failed creation
/// ends the write with its error; then the data are written once, and that
/// gives the outcome.
pub open spec fn write_config_trace(data: Seq<u8>, t: Seq<ZkCall>) -> Option<Result<(), i32>> {
    if t.len() == 0 {
        None
    } else {
        match t[0] {
            ZkCall::Exists { path, result } => if path != ZK_CONFIG_PATH@ {
                None
            } else if result == Ok::<bool, i32>(true) {
                written_once(data, t.subrange(1, t.len() as int))
            } else if t.len() < 2 {
                None
            } else {
                match t[1] {
                    ZkCall::Create { path: p, result: created } => if p != ZK_CONFIG_PATH@ {
                        None
                    } else {
                        match created {
                            Err(e) => if t.len() == 2 {
                                Some(Err(e))
                            } else {
                                None
                            },
                            Ok(_) => written_once(data, t.subrange(2, t.len() as int)),
                        }
                    },
                    _ => None,
                }
            },
            _ => None,
        }
    }
}

/// What writing a configuration does, whatever ZooKeeper answers: it
/// first looks the configuration node up; and where it succeeds, its last
/// request is one successful write of exactly `data` to the configuration
/// node, preceded by no other write, whether or not the node existed.
pub proof fn lemma_write_config_trace_laws(data: Seq<u8>, t: Seq<ZkCall>)
    requires
        write_config_trace(data, t) is Some,
    ensures
        t.len() > 0,
        t[0] is Exists && call_path(t[0]) == ZK_CONFIG_PATH@,
        write_config_trace(data, t) == Some(Ok::<(), i32>(())) ==> t.last() == (ZkCall::SetData {
            path: ZK_CONFIG_PATH@,
            data: data,
            result: Ok::<(), i32>(()),
        }),
        forall|i: int| 0 <= i < t.len() - 1 ==> !(#[trigger] t[i] is SetData),
        write_config_trace(data, t) matches Some(Err(e)) ==> creation_failed_with(t.last(), e)
            || t.last() == (ZkCall::SetData {
            path: ZK_CONFIG_PATH@,
            data: data,
            result: Err::<(), i32>(e),
        }),
{
    if t[0]->Exists_result == Ok::<bool, i32>(true) {
        assert(t.subrange(1, t.len() as int)[0] == t[1]);
    } else if t.len() > 2 {
        assert(t.subrange(2, t.len() as int)[0] == t[2]);
    }
}

/// Writes `data` as the configuration: creates the configuration node where
/// it does not exist, then sets its data; the requests and the outcome are
/// those of `write_config_trace`.
pub fn write_config(zk_client: &mut ZkClient, data: &str) -> (r: Result<(), ZkFailure>)
    ensures
        continues(*old(zk_client), *final(zk_client)),
        write_config_trace(data.spec_bytes(), new_calls(*old(zk_client), *final(zk_client)))
            == Some(unit_outcome(r)),
        new_calls(*old(zk_client), *final(zk_client)).len() > 0,
        new_calls(*old(zk_client), *final(zk_client))[0] is Exists && call_path(
            new_calls(*old(zk_client), *final(zk_client))[0],
        ) == ZK_CONFIG_PATH@,
        r is Ok ==> final(zk_client).calls().last() == (ZkCall::SetData {
            path: ZK_CONFIG_PATH@,
            data: data.spec_bytes(),
            result: Ok::<(), i32>(()),
        }),
        r matches Err(f) ==> creation_failed_with(final(zk_client).calls().last(), f.code)
            || final(zk_client).calls().last() == (ZkCall::SetData {
            path: ZK_CONFIG_PATH@,
            data: data.spec_bytes(),
            result: Err::<(), i32>(f.code),
        }),
{
    let ghost c0 = zk_client.calls();
    let found = zk_client.node_exists(ZK_CONFIG_PATH);
    let ghost c1 = zk_client.calls();
    proof {
        assert(c1.subrange(0, c0.len() as int) =~= c0);
    }
    if !found {
        // Create a new node.
        let created = zk_client.create(ZK_CONFIG_PATH);
        let ghost c2 = zk_client.calls();
        proof {
            assert(c2.subrange(0, c0.len() as int) =~= c0);
            assert(c2.subrange(c0.len() as int, c2.len() as int) =~= seq![c1.last(), c2.last()]);
        }
        match created {
            Ok(_) => {},
            Err(e) => {
                proof {
                    lemma_write_config_trace_laws(
                        data.spec_bytes(),
                        new_calls(*old(zk_client), *zk_client),
                    );
                }
                return Err(e);
            },
        }
    }
    let ghost c3 = zk_client.calls();
    let bytes = data.as_bytes_vec();
    // Write config.
    let written = zk_client.write_data(ZK_CONFIG_PATH, bytes);
    let ghost c4 = zk_client.calls();
    proof {
        let t = c4.subrange(c0.len() as int, c4.len() as int);
        assert(c4.subrange(0, c0.len() as int) =~= c0);
        let k = c3.len() - c0.len();
        assert(t.subrange(k, t.len() as int) =~= c4.subrange(c3.len() as int, c4.len() as int));
        assert(t[0] == c1.last());
        if !found {
            assert(t[1] == c3.last());
        }
    }
    proof {
        lemma_write_config_trace_laws(data.spec_bytes(), new_calls(*old(zk_client), *zk_client));
    }
    match written {
        Ok(_) => Ok(()),
        Err(e) => Err(e),
    }
}

} // verus!
