use vstd::prelude::*;
use vstd::string::*;

verus! {

/// The ZooKeeper node that holds the configuration.
pub const ZK_CONFIG_PATH: &'static str = "/config";

/// The ZooKeeper node under which each live node registers itself.
pub const ZK_NODE_PATH: &'static str = "/node";

/// The ZooKeeper node under which each node publishes its process report.
pub const ZK_INFO_PATH: &'static str = "/info";

/// `base`, a slash, then `name`.
pub open spec fn child_path(base: Seq<char>, name: Seq<char>) -> Seq<char> {
    base + seq!['/'] + name
}

/// Joins `base` and `name` with a slash.
pub fn join_path(base: &str, name: &str) -> (r: String)
    ensures
        r@ == child_path(base@, name@),
{
    let mut r = String::new();
    r.append(base);
    r.append("/");
    r.append(name);
    proof {
        reveal_strlit("/");
        assert(r@ =~= child_path(base@, name@));
    }
    r
}

/// The path under which the node called `node_name` registers itself.
pub fn zk_node_path(node_name: &str) -> (r: String)
    ensures
        r@ == child_path(ZK_NODE_PATH@, node_name@),
{
    join_path(ZK_NODE_PATH, node_name)
}

/// The path at which the node called `node_name` publishes its report.
pub fn zk_node_info_path(node_name: &str) -> (r: String)
    ensures
        r@ == child_path(ZK_INFO_PATH@, node_name@),
{
    join_path(ZK_INFO_PATH, node_name)
}

/// `i` is the position of the last slash in `s`.
pub open spec fn is_last_slash(s: Seq<char>, i: int) -> bool {
    &&& 0 <= i < s.len()
    &&& s[i] == '/'
    &&& forall|j: int| i < j < s.len() ==> s[j] != '/'
}

/// The parent of a path: what stands before its last slash, or nothing
/// where it holds no slash.
pub open spec fn parent_of(s: Seq<char>) -> Seq<char> {
    if exists|i: int| is_last_slash(s, i) {
        s.subrange(0, choose|i: int| is_last_slash(s, i))
    } else {
        Seq::empty()
    }
}

/// The last slash of a path is unique where there is one.
pub proof fn lemma_last_slash_unique(s: Seq<char>, i: int, j: int)
    requires
        is_last_slash(s, i),
        is_last_slash(s, j),
    ensures
        i == j,
{
}

/// The parent of a path that is not empty is shorter than the path: the
/// chain of parents always ends at the empty path.
pub proof fn lemma_parent_shorter(s: Seq<char>)
    requires
        s.len() > 0,
    ensures
        parent_of(s).len() < s.len(),
        parent_of(s).is_prefix_of(s),
{
    if exists|i: int| is_last_slash(s, i) {
        let i = choose|i: int| is_last_slash(s, i);
        assert(parent_of(s) =~= s.subrange(0, i));
    }
}

/// How many slashes `s` holds.
pub open spec fn slash_count(s: Seq<char>) -> nat
    decreases s.len(),
{
    if s.len() == 0 {
        0
    } else {
        slash_count(s.drop_last()) + if s.last() == '/' {
            1nat
        } else {
            0nat
        }
    }
}

/// How many paths the chain from `s` through its parents holds before it
/// reaches the empty path.
pub open spec fn ancestry_depth(s: Seq<char>) -> nat
    decreases s.len(),
{
    if s.len() == 0 {
        0
    } else {
        proof {
            lemma_parent_shorter(s);
        }
        1 + ancestry_depth(parent_of(s))
    }
}

/// What precedes the last slash of a path holds one slash fewer.
pub proof fn lemma_slashes_before_last(s: Seq<char>, i: int)
    requires
        is_last_slash(s, i),
    ensures
        slash_count(s.subrange(0, i)) + 1 == slash_count(s),
    decreases s.len(),
{
    if i == s.len() - 1 {
        assert(s.drop_last() =~= s.subrange(0, i));
    } else {
        let d = s.drop_last();
        assert(is_last_slash(d, i));
        lemma_slashes_before_last(d, i);
        assert(d.subrange(0, i) =~= s.subrange(0, i));
    }
}

/// The chain of parents of a path is at most one longer than the number of
/// slashes in the path.
pub proof fn lemma_ancestry_depth_bound(s: Seq<char>)
    ensures
        ancestry_depth(s) <= slash_count(s) + 1,
    decreases s.len(),
{
    if s.len() > 0 {
        lemma_parent_shorter(s);
        lemma_ancestry_depth_bound(parent_of(s));
        if exists|i: int| is_last_slash(s, i) {
            let i = choose|i: int| is_last_slash(s, i);
            lemma_slashes_before_last(s, i);
        } else {
            assert(parent_of(s) == Seq::<char>::empty());
        }
    }
}

/// The path of the parent of `path`: what precedes its last slash.
pub fn parent_path(path: &str) -> (r: String)
    ensures
        r@ == parent_of(path@),
{
    let n = path.unicode_len();
    let mut k: usize = n;
    while k > 0
        invariant
            n == path@.len(),
            k <= n,
            forall|j: int| k <= j < n ==> path@[j] != '/',
        decreases k,
    {
        if path.get_char(k - 1) == '/' {
            let i = k - 1;
            proof {
                assert(is_last_slash(path@, i as int));
                let c = choose|c: int| is_last_slash(path@, c);
                lemma_last_slash_unique(path@, i as int, c);
            }
            let parent = path.substring_char(0, i);
            let mut r = String::new();
            r.append(parent);
            proof {
                assert(r@ =~= parent_of(path@));
            }
            return r;
        }
        k = k - 1;
    }
    proof {
        assert(!exists|i: int| is_last_slash(path@, i));
    }
    String::new()
}

} // verus!
