use vstd::prelude::*;
use vstd::utf8::{decode_utf8, valid_utf8};

use crate::config::{ProcessConfig, ProcessConfigView, WdrConfig, duplicate_configs};
use crate::paths::ZK_CONFIG_PATH;
use crate::zk::{rejected_path, ZkCall, ZkClient, ZkFailure};

verus! {

/// Decodes bytes as UTF-8 text with `String::from_utf8`. Claimed, as std
/// documents it: the text is given exactly where the bytes are valid UTF-8,
/// and it is what they encode.
#[verifier::external_body]
fn utf8_string(raw: Vec<u8>) -> (r: Option<String>)
    ensures
        r is Some <==> valid_utf8(raw@),
        r matches Some(text) ==> text@ == decode_utf8(raw@),
{
    String::from_utf8(raw).ok()
}

/// The text that the outcome of a read gives: what the data decode to where
/// the read succeeded and the data are valid UTF-8, nothing otherwise.
pub open spec fn text_spec(result: Result<Seq<u8>, i32>) -> Option<Seq<char>> {
    match result {
        Ok(bytes) => if valid_utf8(bytes) {
            Some(decode_utf8(bytes))
        } else {
            None
        },
        Err(_) => None,
    }
}

/// The text of an optional `String`.
pub open spec fn opt_text(r: Option<String>) -> Option<Seq<char>> {
    match r {
        Some(s) => Some(s@),
        None => None,
    }
}

/// The text that a read of a node gives: what its data decode to where the
/// read succeeded and the data are valid UTF-8, nothing otherwise.
pub fn text_of(read: Result<Vec<u8>, ZkFailure>) -> (r: Option<String>)
    ensures
        opt_text(r) == text_spec(
            match read {
                Ok(d) => Ok(d@),
                Err(f) => Err(f.code),
            },
        ),
{
    match read {
        Ok(raw) => utf8_string(raw),
        Err(_) => None,
    }
}

/// The text held by the node at `path`: one read of that node is made, and
/// the answer is the text of its outcome (nothing where it failed or the
/// data are not valid UTF-8).
pub fn read_text(zk_client: &mut ZkClient, path: &str) -> (r: Option<String>)
    ensures
        final(zk_client).calls() == old(zk_client).calls().push(
            ZkCall::GetData {
                path: path@,
                result: final(zk_client).calls().last()->GetData_result,
            },
        ),
        opt_text(r) == text_spec(final(zk_client).calls().last()->GetData_result),
        rejected_path(path@) ==> r is None,
{
    let read = zk_client.get_data(path);
    text_of(read)
}

/// The text of the configuration as it is stored: one read of the
/// configuration node is made, and the answer is the text of its outcome.
/// Parsing it is left to the caller.
pub fn read_config(zk_client: &mut ZkClient) -> (r: Option<String>)
    ensures
        final(zk_client).calls() == old(zk_client).calls().push(
            ZkCall::GetData {
                path: ZK_CONFIG_PATH@,
                result: final(zk_client).calls().last()->GetData_result,
            },
        ),
        opt_text(r) == text_spec(final(zk_client).calls().last()->GetData_result),
{
    read_text(zk_client, ZK_CONFIG_PATH)
}

/// What a node's main loop keeps between two reads of the configuration:
/// the configuration that it last acted on.
pub struct ConfigWatch {
    prev_wdr_config: WdrConfig,
}

impl View for ConfigWatch {
    type V = Seq<ProcessConfigView>;

    /// The configuration last acted on.
    closed spec fn view(&self) -> Seq<ProcessConfigView> {
        self.prev_wdr_config@
    }
}

impl ConfigWatch {
    /// A watch that has acted on no configuration yet: the empty one.
    pub fn new() -> (r: ConfigWatch)
        ensures
            r@ == Seq::<ProcessConfigView>::empty(),
    {
        ConfigWatch { prev_wdr_config: WdrConfig::default() }
    }

    /// Takes the result of one read of the configuration. A failed read
    /// changes nothing and asks for nothing; a configuration equal to the
    /// last one acted on asks for nothing; a different one becomes the one
    /// acted on, and its processes are to be flushed.
    pub fn on_config(&mut self, read: Option<WdrConfig>) -> (flush: Option<Vec<ProcessConfig>>)
        ensures
            final(self)@ == watch_step(old(self)@, read_view(read)).0,
            flush is Some == watch_step(old(self)@, read_view(read)).1 is Some,
            flush matches Some(cs) ==> cs@.map_values(|p: ProcessConfig| p@) == watch_step(
                old(self)@,
                read_view(read),
            ).1->0,
            read is None ==> flush is None && final(self)@ == old(self)@,
            read is Some && read->0@ != old(self)@ ==> flush is Some && flush->0@.map_values(
                |p: ProcessConfig| p@,
            ) == read->0@ && final(self)@ == read->0@,
            read is Some && read->0@ == old(self)@ ==> flush is None && final(self)@ == old(self)@,
    {
        match read {
            None => None,
            Some(wdr_config) => {
                if wdr_config.equals(&self.prev_wdr_config) {
                    None
                } else {
                    let configs = duplicate_configs(&wdr_config.configs);
                    self.prev_wdr_config = wdr_config;
                    Some(configs)
                }
            },
        }
    }
}

/// The value of the result of a read of the configuration.
pub open spec fn read_view(read: Option<WdrConfig>) -> Option<Seq<ProcessConfigView>> {
    match read {
        Some(c) => Some(c@),
        None => None,
    }
}

/// One step of the watch: from the configuration last acted on and the
/// result of a read, the configuration then acted on and the processes to
/// flush, if any.
pub open spec fn watch_step(prev: Seq<ProcessConfigView>, read: Option<Seq<ProcessConfigView>>) -> (
    Seq<ProcessConfigView>,
    Option<Seq<ProcessConfigView>>,
) {
    match read {
        None => (prev, None),
        Some(c) => if c == prev {
            (prev, None)
        } else {
            (c, Some(c))
        },
    }
}

/// The watch asks for a flush exactly when a read gives a configuration
/// other than the one last acted on, and then every process of that
/// configuration is to be flushed, in its order; afterwards that configuration is the
/// one acted on, so reading it again asks for nothing; and a failed read
/// leaves everything as it was.
pub proof fn lemma_watch_flushes_once(prev: Seq<ProcessConfigView>, c: Seq<ProcessConfigView>)
    ensures
        watch_step(prev, Some(c)).1 is Some <==> c != prev,
        c != prev ==> watch_step(prev, Some(c)).1 == Some(c),
        watch_step(prev, Some(c)).0 == c,
        watch_step(watch_step(prev, Some(c)).0, Some(c)).1 is None,
        watch_step(prev, None) == (prev, None::<Seq<ProcessConfigView>>),
{
}

} // verus!
