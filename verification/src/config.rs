use vstd::prelude::*;

verus! {

/// What the configuration says of one process: its name, the version that
/// should run, where its executable is downloaded from and the command that
/// starts it.
#[derive(Debug, Clone, Default)]
pub struct ProcessConfig {
    pub name: String,
    pub version: String,
    pub resource: String,
    pub cmd: String,
}

/// The mathematical value of a `ProcessConfig`.
pub struct ProcessConfigView {
    pub name: Seq<char>,
    pub version: Seq<char>,
    pub resource: Seq<char>,
    pub cmd: Seq<char>,
}

impl View for ProcessConfig {
    type V = ProcessConfigView;

    open spec fn view(&self) -> ProcessConfigView {
        ProcessConfigView {
            name: self.name@,
            version: self.version@,
            resource: self.resource@,
            cmd: self.cmd@,
        }
    }
}

/// The whole configuration: the processes that every node should run.
#[derive(Debug, Clone)]
pub struct WdrConfig {
    pub configs: Vec<ProcessConfig>,
}

impl View for WdrConfig {
    type V = Seq<ProcessConfigView>;

    open spec fn view(&self) -> Seq<ProcessConfigView> {
        self.configs@.map_values(|c: ProcessConfig| c@)
    }
}

impl Default for WdrConfig {
    fn default() -> (r: WdrConfig)
        ensures
            r@ == Seq::<ProcessConfigView>::empty(),
    {
        WdrConfig { configs: Vec::new() }
    }
}

impl ProcessConfig {
    /// Field-by-field equality of two process configurations.
    pub fn equals(&self, other: &ProcessConfig) -> (r: bool)
        ensures
            r == (self@ == other@),
    {
        self.name == other.name && self.version == other.version && self.resource
            == other.resource && self.cmd == other.cmd
    }

    /// A copy with the same value.
    pub fn duplicate(&self) -> (r: ProcessConfig)
        ensures
            r@ == self@,
    {
        ProcessConfig {
            name: self.name.clone(),
            version: self.version.clone(),
            resource: self.resource.clone(),
            cmd: self.cmd.clone(),
        }
    }
}

impl WdrConfig {
    /// Equality of two configurations: the same process configurations in
    /// the same order.
    pub fn equals(&self, other: &WdrConfig) -> (r: bool)
        ensures
            r == (self@ == other@),
    {
        let n = self.configs.len();
        if n != other.configs.len() {
            proof {
                assert(self@.len() != other@.len());
            }
            return false;
        }
        let mut i: usize = 0;
        while i < n
            invariant
                n == self.configs.len(),
                n == other.configs.len(),
                i <= n,
                forall|j: int| 0 <= j < i ==> self@[j] == other@[j],
            decreases n - i,
        {
            if !self.configs[i].equals(&other.configs[i]) {
                proof {
                    assert(self@[i as int] != other@[i as int]);
                }
                return false;
            }
            i = i + 1;
        }
        proof {
            assert(self@ =~= other@);
        }
        true
    }
}

/// A copy of a list of process configurations, element by element.
pub fn duplicate_configs(configs: &Vec<ProcessConfig>) -> (r: Vec<ProcessConfig>)
    ensures
        r@.map_values(|c: ProcessConfig| c@) == configs@.map_values(|c: ProcessConfig| c@),
{
    let mut out: Vec<ProcessConfig> = Vec::new();
    let mut i: usize = 0;
    while i < configs.len()
        invariant
            i <= configs.len(),
            out@.len() == i,
            forall|j: int| 0 <= j < i ==> out@[j]@ == configs@[j]@,
        decreases configs.len() - i,
    {
        out.push(configs[i].duplicate());
        i = i + 1;
    }
    proof {
        assert(out@.map_values(|c: ProcessConfig| c@) =~= configs@.map_values(
            |c: ProcessConfig| c@,
        ));
    }
    out
}

} // verus!
